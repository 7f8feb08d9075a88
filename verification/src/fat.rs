//! A read-only FAT16/FAT32 reader that mounts a partition of the block layer
//! into an in-memory tree of nodes under `/fat`.
use vstd::prelude::*;
use crate::bytes::{le_u16, le_u32, read_u16_le, read_u32_le};
use crate::block::{BlockState, PartitionInfo, device_byte, image_sector, sector_at, sectors_for};

verus! {

pub const DIRECTORY_ENTRY_BYTES: usize = 32;
pub const FAT16_EOC_MIN: u32 = 0x0000_fff8;
pub const FAT16_BAD_CLUSTER: u32 = 0x0000_fff7;
pub const FAT32_EOC_MIN: u32 = 0x0fff_fff8;
pub const FAT32_BAD_CLUSTER: u32 = 0x0fff_fff7;
pub const MAX_CLUSTER_CHAIN_STEPS: usize = 4096;
pub const MAX_DIRECTORY_RECURSION_DEPTH: usize = 16;
pub const LFN_ATTRIBUTE: u8 = 0x0f;
pub const ATTR_VOLUME_ID: u8 = 0x08;
pub const ATTR_DIRECTORY: u8 = 0x10;

#[derive(Copy, Clone, Debug, PartialEq, Eq, Structural)]
pub enum FatType {
    Fat16,
    Fat32,
}

impl FatType {
    pub fn as_str(self) -> (s: &'static str)
        ensures
            self == FatType::Fat16 ==> s@ == "fat16"@,
            self == FatType::Fat32 ==> s@ == "fat32"@,
    {
        match self {
            FatType::Fat16 => "fat16",
            FatType::Fat32 => "fat32",
        }
    }
}

#[derive(Copy, Clone, Debug, PartialEq, Eq, Structural)]
pub enum FatNodeKind {
    Directory,
    File,
}

#[derive(Copy, Clone, Debug)]
pub struct FatNodeInfo {
    pub kind: FatNodeKind,
    pub size: usize,
}

#[derive(Copy, Clone, Debug, PartialEq, Eq, Structural)]
pub enum FatError {
    AlreadyInitialized,
    BlockUnavailable,
    NoFatPartition,
}

impl FatError {
    pub fn as_str(self) -> (s: &'static str)
        ensures
            self == FatError::AlreadyInitialized ==> s@ == "fat is already initialized"@,
            self == FatError::BlockUnavailable ==> s@ == "block layer is unavailable"@,
            self == FatError::NoFatPartition ==> s@ == "no FAT16/32 partition found"@,
    {
        match self {
            FatError::AlreadyInitialized => "fat is already initialized",
            FatError::BlockUnavailable => "block layer is unavailable",
            FatError::NoFatPartition => "no FAT16/32 partition found",
        }
    }
}

/// The volume geometry read from a BIOS parameter block; offsets are in sectors
/// relative to the start of the partition.
#[derive(Copy, Clone, Debug)]
pub struct BpbLayout {
    pub fat_type: FatType,
    pub bytes_per_sector: u16,
    pub sectors_per_cluster: u8,
    pub reserved_sectors: u16,
    pub fat_count: u8,
    pub sectors_per_fat: u32,
    pub root_dir_entries: u16,
    pub root_dir_sectors: u32,
    pub fat_start_lba_offset: u32,
    pub root_dir_start_lba_offset: u32,
    pub first_data_sector_offset: u32,
    pub root_dir_first_cluster: u32,
}

/// Geometry of a BPB sector, in exact integer arithmetic:
/// `(total_sectors, sectors_per_fat, root_dir_sectors, first_data_sector, cluster_count)`.
pub open spec fn bpb_geometry(s: Seq<u8>) -> (int, int, int, int, int) {
    let ts16 = le_u16(s, 19);
    let total = if ts16 != 0 { ts16 } else { le_u32(s, 32) };
    let spf16 = le_u16(s, 22);
    let spf = if spf16 != 0 { spf16 } else { le_u32(s, 36) };
    let rds = (le_u16(s, 17) * 32 + 511) / 512;
    let first_data = le_u16(s, 14) + s[16] * spf + rds;
    let clusters = if s[13] == 0 { 0 } else { (total - first_data) / (s[13] as int) };
    (total, spf, rds, first_data, clusters)
}

/// Whether a sector holds a BPB this reader mounts.
pub open spec fn bpb_valid(s: Seq<u8>) -> bool {
    let g = bpb_geometry(s);
    &&& le_u16(s, 11) == 512
    &&& s[13] != 0
    &&& le_u16(s, 14) != 0
    &&& s[16] != 0
    &&& g.0 != 0
    &&& g.1 != 0
    &&& g.3 < g.0
    &&& g.4 >= 4085
    &&& (g.4 >= 65525 ==> le_u32(s, 44) >= 2)
}

/// The layout described by a valid BPB sector.
pub open spec fn bpb_of(s: Seq<u8>) -> BpbLayout {
    let g = bpb_geometry(s);
    BpbLayout {
        fat_type: if g.4 < 65525 { FatType::Fat16 } else { FatType::Fat32 },
        bytes_per_sector: 512,
        sectors_per_cluster: s[13],
        reserved_sectors: le_u16(s, 14) as u16,
        fat_count: s[16],
        sectors_per_fat: g.1 as u32,
        root_dir_entries: le_u16(s, 17) as u16,
        root_dir_sectors: g.2 as u32,
        fat_start_lba_offset: le_u16(s, 14) as u32,
        root_dir_start_lba_offset: (le_u16(s, 14) + s[16] * g.1) as u32,
        first_data_sector_offset: g.3 as u32,
        root_dir_first_cluster: le_u32(s, 44) as u32,
    }
}

/// Parses the BIOS parameter block of a FAT16/FAT32 boot sector.
pub fn parse_bpb(sector: &[u8]) -> (r: Option<BpbLayout>)
    requires
        sector@.len() == 512,
    ensures
        r == if bpb_valid(sector@) { Some(bpb_of(sector@)) } else { None },
{
    let bytes_per_sector = read_u16_le(sector, 11);
    if bytes_per_sector != 512 {
        return None;
    }
    let sectors_per_cluster = sector[13];
    if sectors_per_cluster == 0 {
        return None;
    }
    let reserved_sectors = read_u16_le(sector, 14);
    if reserved_sectors == 0 {
        return None;
    }
    let fat_count = sector[16];
    if fat_count == 0 {
        return None;
    }
    let root_dir_entries = read_u16_le(sector, 17);
    let total_sectors_16 = read_u16_le(sector, 19) as u32;
    let sectors_per_fat_16 = read_u16_le(sector, 22) as u32;
    let total_sectors_32 = read_u32_le(sector, 32);
    let sectors_per_fat_32 = read_u32_le(sector, 36);
    let root_dir_first_cluster = read_u32_le(sector, 44);

    let total_sectors = if total_sectors_16 != 0 { total_sectors_16 } else { total_sectors_32 };
    if total_sectors == 0 {
        return None;
    }
    let sectors_per_fat = if sectors_per_fat_16 != 0 { sectors_per_fat_16 } else { sectors_per_fat_32 };
    if sectors_per_fat == 0 {
        return None;
    }
    let root_dir_sectors = ((root_dir_entries as u32) * 32 + 511) / 512;
    assert((fat_count as int) * (sectors_per_fat as int) <= 255 * 0xFFFF_FFFFint) by (nonlinear_arith)
        requires
            fat_count <= 255u8,
            sectors_per_fat <= 0xFFFF_FFFFu32,
    ;
    let fat_area = (fat_count as u64) * (sectors_per_fat as u64);
    let first_data_sector = (reserved_sectors as u64) + fat_area + (root_dir_sectors as u64);
    if first_data_sector >= total_sectors as u64 {
        return None;
    }
    let data_sectors = total_sectors - first_data_sector as u32;
    let cluster_count = data_sectors / (sectors_per_cluster as u32);
    if cluster_count < 4085 {
        return None;
    }
    let fat_type = if cluster_count < 65525 { FatType::Fat16 } else { FatType::Fat32 };
    if cluster_count >= 65525 && root_dir_first_cluster < 2 {
        return None;
    }
    Some(BpbLayout {
        fat_type,
        bytes_per_sector,
        sectors_per_cluster,
        reserved_sectors,
        fat_count,
        sectors_per_fat,
        root_dir_entries,
        root_dir_sectors,
        fat_start_lba_offset: reserved_sectors as u32,
        root_dir_start_lba_offset: (reserved_sectors as u64 + fat_area) as u32,
        first_data_sector_offset: first_data_sector as u32,
        root_dir_first_cluster,
    })
}

/// What a boot sector says, read from its bytes. It is taken when it has 512 bytes per
/// sector (word at 11), a non-zero cluster size (byte 13), reserved sector count (word at
/// 14) and FAT count (byte 16), a non-zero total (word at 19, else the 32-bit word at 32)
/// and FAT size (word at 22, else the 32-bit word at 36), data after the root directory,
/// and at least 4085 clusters; a volume of 65525 clusters or more is FAT32 and must name
/// its root directory's cluster (32-bit word at 44, at least 2), a smaller one is FAT16.
/// The root directory takes its entry count (word at 17) times 32 bytes, rounded up to
/// whole sectors; the first FAT follows the reserved sectors, the root directory follows
/// the FATs, and the data area follows the root directory.
pub proof fn lemma_bpb_fields(s: Seq<u8>)
    requires
        s.len() == 512,
    ensures
        ({
            let w16 = |i: int| s[i] + 256 * s[i + 1];
            let w32 = |i: int| s[i] + 256 * s[i + 1] + 65536 * s[i + 2] + 16777216 * s[i + 3];
            let total = if w16(19) != 0 { w16(19) } else { w32(32) };
            let spf = if w16(22) != 0 { w16(22) } else { w32(36) };
            let rds = (w16(17) * 32 + 511) / 512;
            let first = w16(14) + s[16] * spf + rds;
            let clusters = if s[13] == 0 { 0 } else { (total - first) / (s[13] as int) };
            &&& bpb_valid(s) <==> (w16(11) == 512 && s[13] != 0 && w16(14) != 0 && s[16] != 0 && total != 0 && spf
                != 0 && first < total && clusters >= 4085 && (clusters >= 65525 ==> w32(44) >= 2))
            &&& bpb_valid(s) ==> {
                let b = bpb_of(s);
                &&& b.fat_type == (if clusters < 65525 { FatType::Fat16 } else { FatType::Fat32 })
                &&& b.bytes_per_sector == 512
                &&& b.sectors_per_cluster == s[13]
                &&& b.reserved_sectors == w16(14)
                &&& b.fat_count == s[16]
                &&& b.sectors_per_fat == spf
                &&& b.root_dir_entries == w16(17)
                &&& b.root_dir_sectors == rds
                &&& b.fat_start_lba_offset == w16(14)
                &&& b.root_dir_start_lba_offset == w16(14) + s[16] * spf
                &&& b.first_data_sector_offset == first
                &&& b.root_dir_first_cluster == w32(44)
            }
        }),
{
    let spf = if le_u16(s, 22) != 0 { le_u16(s, 22) } else { le_u32(s, 36) };
    assert(0 <= s[16] * spf) by (nonlinear_arith)
        requires
            0 <= s[16],
            0 <= spf,
    ;
}

/// A FAT entry marks the end of a cluster chain.
pub fn is_end_of_chain(fat_type: FatType, entry: u32) -> (b: bool)
    ensures
        b == match fat_type {
            FatType::Fat16 => entry >= FAT16_EOC_MIN,
            FatType::Fat32 => entry >= FAT32_EOC_MIN,
        },
        fat_type == FatType::Fat16 ==> (b <==> 0xFFF8 <= entry),
        fat_type == FatType::Fat32 ==> (b <==> 0x0FFF_FFF8 <= entry),
{
    match fat_type {
        FatType::Fat16 => entry >= FAT16_EOC_MIN,
        FatType::Fat32 => entry >= FAT32_EOC_MIN,
    }
}

/// A FAT entry marks a bad cluster.
pub fn is_bad_cluster(fat_type: FatType, entry: u32) -> (b: bool)
    ensures
        b == match fat_type {
            FatType::Fat16 => entry == FAT16_BAD_CLUSTER,
            FatType::Fat32 => entry == FAT32_BAD_CLUSTER,
        },
        fat_type == FatType::Fat16 ==> (b <==> entry == 0xFFF7),
        fat_type == FatType::Fat32 ==> (b <==> entry == 0x0FFF_FFF7),
{
    match fat_type {
        FatType::Fat16 => entry == FAT16_BAD_CLUSTER,
        FatType::Fat32 => entry == FAT32_BAD_CLUSTER,
    }
}


/// `char::from_u32`: a char exactly for the Unicode scalar values.
#[verifier::external_body]
fn char_from_u32(v: u32) -> (r: Option<char>)
    ensures
        r is Some <==> (v <= 0x10FFFF && !(0xD800 <= v <= 0xDFFF)),
        r matches Some(c) ==> c == v as char,
{
    char::from_u32(v)
}

/// A byte that ends an 8.3 name component: space or NUL.
pub open spec fn is_name_stop(b: u8) -> bool {
    b == 0x20 || b == 0
}

/// Index of the first stop byte of `s` at or after `i` (or `s.len()`).
pub open spec fn first_stop(s: Seq<u8>, i: int) -> int
    decreases s.len() - i,
{
    if i >= s.len() {
        s.len() as int
    } else if is_name_stop(s[i]) {
        i
    } else {
        first_stop(s, i + 1)
    }
}

/// An 8.3 name component: the bytes before the first stop byte, each printable ASCII.
pub open spec fn name_component(s: Seq<u8>) -> Option<Seq<char>> {
    let k = first_stop(s, 0);
    if forall|j: int| 0 <= j < k ==> 0x21 <= #[trigger] s[j] <= 0x7e {
        Some(Seq::new(k as nat, |j: int| s[j] as char))
    } else {
        None
    }
}

proof fn lemma_first_stop_bounds(s: Seq<u8>, i: int)
    requires
        0 <= i <= s.len(),
    ensures
        i <= first_stop(s, i) <= s.len(),
        first_stop(s, i) < s.len() ==> is_name_stop(s[first_stop(s, i)]),
        forall|j: int| i <= j < first_stop(s, i) ==> !is_name_stop(#[trigger] s[j]),
    decreases s.len() - i,
{
    if i < s.len() && !is_name_stop(s[i]) {
        lemma_first_stop_bounds(s, i + 1);
    }
}

/// Decodes one space-padded component of an 8.3 short name.
pub fn parse_name_component(bytes: &[u8]) -> (r: Option<Vec<char>>)
    ensures
        match r {
            Some(v) => name_component(bytes@) == Some(v@),
            None => name_component(bytes@) is None,
        },
{
    proof {
        lemma_first_stop_bounds(bytes@, 0);
    }
    let ghost k = first_stop(bytes@, 0);
    let mut text: Vec<char> = Vec::new();
    let mut i: usize = 0;
    let mut ok = true;
    while i < bytes.len() && ok && !(bytes[i] == 0x20 || bytes[i] == 0)
        invariant
            i <= bytes@.len(),
            k == first_stop(bytes@, 0),
            0 <= k <= bytes@.len(),
            forall|j: int| 0 <= j < k ==> !is_name_stop(#[trigger] bytes@[j]),
            k < bytes@.len() ==> is_name_stop(bytes@[k]),
            i <= k,
            ok ==> text@ == Seq::new(i as nat, |j: int| bytes@[j] as char),
            ok ==> forall|j: int| 0 <= j < i ==> 0x21 <= #[trigger] bytes@[j] <= 0x7e,
            !ok ==> i < k && !(0x21 <= bytes@[i as int] <= 0x7e),
        decreases bytes@.len() - i, if ok { 1int } else { 0int },
    {
        let b = bytes[i];
        if !(0x21 <= b && b <= 0x7e) {
            ok = false;
        } else {
            text.push(b as char);
            i = i + 1;
            assert(text@ =~= Seq::new(i as nat, |j: int| bytes@[j] as char));
        }
    }
    if ok {
        assert(i == k);
        Some(text)
    } else {
        None
    }
}


/// An 8.3 short name: `BASE` or `BASE.EXT`, the base non-empty.
pub open spec fn short_name(name: Seq<u8>) -> Option<Seq<char>> {
    if name.len() != 11 {
        None
    } else {
        match (name_component(name.subrange(0, 8)), name_component(name.subrange(8, 11))) {
            (Some(base), Some(ext)) => if base.len() == 0 {
                None
            } else if ext.len() == 0 {
                Some(base)
            } else {
                Some(base + seq!['.'] + ext)
            },
            _ => None,
        }
    }
}

proof fn lemma_first_stop_at(s: Seq<u8>, i: int, k: int)
    requires
        0 <= i <= k <= s.len(),
        forall|j: int| i <= j < k ==> !is_name_stop(#[trigger] s[j]),
        k < s.len() ==> is_name_stop(s[k]),
    ensures
        first_stop(s, i) == k,
    decreases k - i,
{
    if i < k {
        lemma_first_stop_at(s, i + 1, k);
    }
}

/// An 8.3 name whose base is `k` printable characters padded with spaces to eight, and
/// whose extension is `j` printable characters padded with spaces to three, reads as the
/// base, then a dot and the extension when there is one. A base that starts with a space
/// gives no name.
pub proof fn lemma_short_name_reads_base_dot_ext(name: Seq<u8>, k: int, j: int)
    requires
        name.len() == 11,
        0 <= k <= 8,
        0 <= j <= 3,
        forall|t: int| 0 <= t < k ==> 0x21 <= #[trigger] name[t] <= 0x7e,
        forall|t: int| k <= t < 8 ==> #[trigger] name[t] == 0x20,
        forall|t: int| 8 <= t < 8 + j ==> 0x21 <= #[trigger] name[t] <= 0x7e,
        forall|t: int| 8 + j <= t < 11 ==> #[trigger] name[t] == 0x20,
    ensures
        k == 0 ==> short_name(name) is None,
        k > 0 && j == 0 ==> short_name(name) == Some(Seq::new(k as nat, |t: int| name[t] as char)),
        k > 0 && j > 0 ==> short_name(name) == Some(
            Seq::new(k as nat, |t: int| name[t] as char) + seq!['.'] + Seq::new(j as nat, |t: int| name[8 + t] as char),
        ),
{
    let b = name.subrange(0, 8);
    let e = name.subrange(8, 11);
    lemma_first_stop_at(b, 0, k);
    lemma_first_stop_at(e, 0, j);
    assert(name_component(b) == Some(Seq::new(k as nat, |t: int| b[t] as char)));
    assert(name_component(e) == Some(Seq::new(j as nat, |t: int| e[t] as char)));
    assert(Seq::new(k as nat, |t: int| b[t] as char) =~= Seq::new(k as nat, |t: int| name[t] as char));
    assert(Seq::new(j as nat, |t: int| e[t] as char) =~= Seq::new(j as nat, |t: int| name[8 + t] as char));
}

/// Decodes the 11-byte 8.3 name field of a directory entry.
pub fn parse_short_name(name: &[u8]) -> (r: Option<Vec<char>>)
    ensures
        match r {
            Some(v) => short_name(name@) == Some(v@),
            None => short_name(name@) is None,
        },
{
    if name.len() != 11 {
        return None;
    }
    let base = match parse_name_component(&name[0..8]) {
        Some(b) => b,
        None => {
            return None;
        },
    };
    if base.len() == 0 {
        return None;
    }
    let ext = match parse_name_component(&name[8..11]) {
        Some(e) => e,
        None => {
            return None;
        },
    };
    let mut full = base;
    if ext.len() != 0 {
        full.push('.');
        let mut i: usize = 0;
        let ghost pre = full@;
        while i < ext.len()
            invariant
                i <= ext@.len(),
                full@ == pre + ext@.subrange(0, i as int),
            decreases ext@.len() - i,
        {
            full.push(ext[i]);
            i = i + 1;
            assert(full@ =~= pre + ext@.subrange(0, i as int));
        }
        assert(ext@.subrange(0, ext@.len() as int) =~= ext@);
    }
    Some(full)
}

/// Byte offsets of the thirteen UTF-16 code units of a long-name entry.
pub open spec fn lfn_offsets() -> Seq<int> {
    seq![1int, 3, 5, 7, 9, 14, 16, 18, 20, 22, 24, 28, 30]
}

/// Decoding of code units `i..13` of a long-name entry: stops at 0x0000 or 0xFFFF,
/// fails on a unit that is not a Unicode scalar value.
pub open spec fn lfn_decode_from(entry: Seq<u8>, i: int) -> Option<Seq<char>>
    decreases 13 - i,
{
    if i >= 13 {
        Some(Seq::empty())
    } else {
        let cp = le_u16(entry, lfn_offsets()[i]);
        if cp == 0 || cp == 0xffff {
            Some(Seq::empty())
        } else if 0xD800 <= cp <= 0xDFFF {
            None
        } else {
            match lfn_decode_from(entry, i + 1) {
                Some(rest) => Some(seq![cp as char] + rest),
                None => None,
            }
        }
    }
}

/// The name fragment of a 32-byte long-name directory entry.
pub open spec fn lfn_fragment(entry: Seq<u8>) -> Option<Seq<char>> {
    if entry.len() != 32 { None } else { lfn_decode_from(entry, 0) }
}

proof fn lemma_lfn_split(entry: Seq<u8>, i: int, acc: Seq<char>)
    requires
        0 <= i < 13,
        entry.len() == 32,
        ({
            let cp = le_u16(entry, lfn_offsets()[i]);
            cp != 0 && cp != 0xffff && !(0xD800 <= cp <= 0xDFFF)
        }),
    ensures
        ({
            let cp = le_u16(entry, lfn_offsets()[i]);
            match lfn_decode_from(entry, i + 1) {
                Some(rest) => lfn_decode_from(entry, i) == Some(seq![cp as char] + rest),
                None => lfn_decode_from(entry, i) is None,
            }
        }),
{
}

/// Code unit `i` (0 to 12) of a long-name entry: units 0 to 4 at bytes 1 to 10, units 5 to
/// 10 at bytes 14 to 25, units 11 and 12 at bytes 28 to 31, each little-endian.
pub open spec fn lfn_unit(entry: Seq<u8>, i: int) -> int {
    let off = if i < 5 { 1 + 2 * i } else if i < 11 { 14 + 2 * (i - 5) } else { 28 + 2 * (i - 11) };
    entry[off] + 256 * entry[off + 1]
}

proof fn lemma_lfn_from(entry: Seq<u8>, i: int)
    requires
        entry.len() == 32,
        0 <= i <= 13,
    ensures
        lfn_decode_from(entry, i) matches Some(f) ==> {
            &&& f.len() <= 13 - i
            &&& forall|j: int| 0 <= j < f.len() ==> {
                let u = #[trigger] lfn_unit(entry, i + j);
                &&& u != 0 && u != 0xffff && !(0xD800 <= u <= 0xDFFF)
                &&& f[j] == u as char
            }
            &&& i + f.len() < 13 ==> (lfn_unit(entry, i + f.len()) == 0 || lfn_unit(entry, i + f.len()) == 0xffff)
        },
        lfn_decode_from(entry, i) is None ==> exists|k: int|
            i <= k < 13 && 0xD800 <= #[trigger] lfn_unit(entry, k) <= 0xDFFF && forall|j: int|
                i <= j < k ==> #[trigger] lfn_unit(entry, j) != 0 && lfn_unit(entry, j) != 0xffff,
    decreases 13 - i,
{
    if i < 13 {
        assert(le_u16(entry, lfn_offsets()[i]) == lfn_unit(entry, i));
        lemma_lfn_from(entry, i + 1);
        let u = lfn_unit(entry, i);
        if !(u == 0 || u == 0xffff) && !(0xD800 <= u <= 0xDFFF) {
            if let Some(rest) = lfn_decode_from(entry, i + 1) {
                let f = seq![u as char] + rest;
                assert forall|j: int| 0 <= j < f.len() implies {
                    let v = #[trigger] lfn_unit(entry, i + j);
                    &&& v != 0 && v != 0xffff && !(0xD800 <= v <= 0xDFFF)
                    &&& f[j] == v as char
                } by {
                    if j > 0 {
                        assert(f[j] == rest[j - 1]);
                        assert(i + j == (i + 1) + (j - 1));
                    }
                }
            } else {
                let k = choose|k: int|
                    i + 1 <= k < 13 && 0xD800 <= #[trigger] lfn_unit(entry, k) <= 0xDFFF && forall|j: int|
                        i + 1 <= j < k ==> #[trigger] lfn_unit(entry, j) != 0 && lfn_unit(entry, j) != 0xffff;
                assert forall|j: int| i <= j < k implies #[trigger] lfn_unit(entry, j) != 0 && lfn_unit(entry, j) != 0xffff by {}
            }
        }
    }
}

/// A long-name entry holds up to thirteen UTF-16 code units (five at bytes 1 to 10, six at
/// 14 to 25, two at 28 to 31). Its fragment is the characters of those units in order up to
/// the first 0x0000 or 0xFFFF terminator; a unit that is half of a surrogate pair before
/// any terminator makes the entry unreadable.
pub proof fn lemma_lfn_fragment_units(entry: Seq<u8>)
    requires
        entry.len() == 32,
    ensures
        lfn_fragment(entry) matches Some(f) ==> {
            &&& f.len() <= 13
            &&& forall|j: int| 0 <= j < f.len() ==> {
                let u = #[trigger] lfn_unit(entry, j);
                u != 0 && u != 0xffff && f[j] == u as char
            }
            &&& f.len() < 13 ==> (lfn_unit(entry, f.len() as int) == 0 || lfn_unit(entry, f.len() as int) == 0xffff)
        },
        lfn_fragment(entry) is None ==> exists|k: int|
            0 <= k < 13 && 0xD800 <= #[trigger] lfn_unit(entry, k) <= 0xDFFF && forall|j: int|
                0 <= j < k ==> #[trigger] lfn_unit(entry, j) != 0 && lfn_unit(entry, j) != 0xffff,
{
    lemma_lfn_from(entry, 0);
    if let Some(f) = lfn_fragment(entry) {
        assert forall|j: int| 0 <= j < f.len() implies {
            let u = #[trigger] lfn_unit(entry, j);
            u != 0 && u != 0xffff && f[j] == u as char
        } by {
            assert(lfn_unit(entry, 0 + j) == lfn_unit(entry, j));
        }
    }
}

/// Decodes the UTF-16 name fragment carried by a long-file-name entry.
pub fn decode_lfn_fragment(entry: &[u8]) -> (r: Option<Vec<char>>)
    ensures
        match r {
            Some(v) => lfn_fragment(entry@) == Some(v@),
            None => lfn_fragment(entry@) is None,
        },
{
    if entry.len() != DIRECTORY_ENTRY_BYTES {
        return None;
    }
    let offsets: [usize; 13] = [1, 3, 5, 7, 9, 14, 16, 18, 20, 22, 24, 28, 30];
    let mut text: Vec<char> = Vec::new();
    let mut i: usize = 0;
    let mut stopped = false;
    let mut failed = false;
    while i < 13 && !stopped && !failed
        invariant
            i <= 13,
            entry@.len() == 32,
            forall|k: int| 0 <= k < 13 ==> offsets@[k] as int == #[trigger] lfn_offsets()[k],
            !failed && !stopped ==> match lfn_decode_from(entry@, i as int) {
                Some(rest) => lfn_fragment(entry@) == Some(text@ + rest),
                None => lfn_fragment(entry@) is None,
            },
            stopped ==> lfn_fragment(entry@) == Some(text@),
            failed ==> lfn_fragment(entry@) is None,
        decreases 13 - i, if stopped || failed { 0int } else { 1int },
    {
        assert(offsets@[i as int] as int == lfn_offsets()[i as int]);
        let codepoint = read_u16_le(entry, offsets[i]);
        if codepoint == 0 || codepoint == 0xffff {
            stopped = true;
            assert(text@ + Seq::<char>::empty() =~= text@);
        } else {
            match char_from_u32(codepoint as u32) {
                Some(ch) => {
                    proof {
                        lemma_lfn_split(entry@, i as int, text@);
                    }
                    let ghost before = text@;
                    text.push(ch);
                    proof {
                        assert(ch == codepoint as char);
                        match lfn_decode_from(entry@, i as int + 1) {
                            Some(rest) => {
                                assert(before + (seq![codepoint as char] + rest) =~= text@ + rest);
                            },
                            None => {},
                        }
                    }
                    i = i + 1;
                },
                None => {
                    failed = true;
                },
            }
        }
    }
    if failed {
        None
    } else {
        if !stopped {
            assert(text@ + Seq::<char>::empty() =~= text@);
        }
        Some(text)
    }
}

/// Long-name fragments collected, in entry order, for the next short entry.
pub struct PendingLongName {
    pub fragments: Vec<Vec<char>>,
}

/// Concatenation of fragments from last to first (long-name entries are stored in reverse).
pub open spec fn concat_rev(frags: Seq<Seq<char>>) -> Seq<char>
    decreases frags.len(),
{
    if frags.len() == 0 {
        Seq::empty()
    } else {
        frags.last() + concat_rev(frags.drop_last())
    }
}

impl PendingLongName {
    pub open spec fn view(&self) -> Seq<Seq<char>> {
        self.fragments@.map_values(|f: Vec<char>| f@)
    }

    pub fn new() -> (p: Self)
        ensures
            p.view() == Seq::<Seq<char>>::empty(),
    {
        let p = PendingLongName { fragments: Vec::new() };
        assert(p.view() =~= Seq::<Seq<char>>::empty());
        p
    }

    pub fn clear(&mut self)
        ensures
            final(self).view() == Seq::<Seq<char>>::empty(),
    {
        self.fragments.clear();
        assert(self.view() =~= Seq::<Seq<char>>::empty());
    }

    /// Adds a fragment, first dropping the collected ones when `reset` is set.
    pub fn push_fragment(&mut self, fragment: Vec<char>, reset: bool)
        ensures
            final(self).view() == if reset { seq![fragment@] } else { old(self).view().push(fragment@) },
    {
        if reset {
            self.fragments.clear();
        }
        let ghost pre = self.view();
        self.fragments.push(fragment);
        assert(self.view() =~= pre.push(fragment@));
        assert(reset ==> pre =~= Seq::<Seq<char>>::empty());
    }

    /// The collected long name, or `fallback` when there is none (or it is empty);
    /// the collection is left empty.
    pub fn take_or(&mut self, fallback: Vec<char>) -> (name: Vec<char>)
        ensures
            final(self).view().len() == 0,
            name@ == if old(self).view().len() == 0 || concat_rev(old(self).view()).len() == 0 {
                fallback@
            } else {
                concat_rev(old(self).view())
            },
    {
        if self.fragments.len() == 0 {
            return fallback;
        }
        let ghost frags = self.view();
        let mut text: Vec<char> = Vec::new();
        let mut i: usize = self.fragments.len();
        assert(frags.subrange(0, i as int) =~= frags);
        assert(text@ + concat_rev(frags) =~= concat_rev(frags));
        while i > 0
            invariant
                i <= self.fragments@.len(),
                frags == self.view(),
                text@ + concat_rev(frags.subrange(0, i as int)) == concat_rev(frags),
            decreases i,
        {
            i = i - 1;
            let fragment = &self.fragments[i];
            let ghost pre = text@;
            let mut k: usize = 0;
            while k < fragment.len()
                invariant
                    k <= fragment@.len(),
                    text@ == pre + fragment@.subrange(0, k as int),
                decreases fragment@.len() - k,
            {
                text.push(fragment[k]);
                k = k + 1;
                assert(text@ =~= pre + fragment@.subrange(0, k as int));
            }
            assert(fragment@.subrange(0, fragment@.len() as int) =~= fragment@);
            assert(frags.subrange(0, i as int + 1).drop_last() =~= frags.subrange(0, i as int));
            assert(frags.subrange(0, i as int + 1).last() == fragment@);
            assert(text@ + concat_rev(frags.subrange(0, i as int)) =~= pre + concat_rev(frags.subrange(0, i as int + 1)));
        }
        assert(concat_rev(frags.subrange(0, 0)) =~= Seq::<char>::empty());
        assert(text@ =~= concat_rev(frags));
        self.fragments.clear();
        assert(self.view() =~= Seq::<Seq<char>>::empty());
        if text.len() == 0 {
            fallback
        } else {
            text
        }
    }
}


/// A directory entry found while scanning a directory's bytes.
pub struct FatDirectoryEntry {
    pub name: Vec<char>,
    pub kind: FatNodeKind,
    pub size: usize,
    pub first_cluster: u32,
}

pub ghost struct DirEntryDesc {
    pub name: Seq<char>,
    pub kind: FatNodeKind,
    pub size: usize,
    pub first_cluster: u32,
}

impl FatDirectoryEntry {
    pub open spec fn view(&self) -> DirEntryDesc {
        DirEntryDesc { name: self.name@, kind: self.kind, size: self.size, first_cluster: self.first_cluster }
    }
}

pub open spec fn entries_view(v: Seq<FatDirectoryEntry>) -> Seq<DirEntryDesc> {
    v.map_values(|e: FatDirectoryEntry| e.view())
}

/// The entry a 32-byte short directory record describes, under the given name.
pub open spec fn dir_entry_desc(e: Seq<u8>, fat_type: FatType, name: Seq<char>) -> DirEntryDesc {
    DirEntryDesc {
        name,
        kind: if e[11] & 0x10 != 0 { FatNodeKind::Directory } else { FatNodeKind::File },
        size: le_u32(e, 28) as usize,
        first_cluster: ((if fat_type == FatType::Fat32 { le_u16(e, 20) } else { 0 }) * 65536 + le_u16(e, 26)) as u32,
    }
}

/// The entries listed by the directory records from byte `off` on, given the long-name
/// fragments pending from earlier records.
pub open spec fn dir_scan(bytes: Seq<u8>, fat_type: FatType, off: int, pending: Seq<Seq<char>>) -> Seq<DirEntryDesc>
    decreases bytes.len() - off,
{
    if off < 0 || off + 32 > bytes.len() {
        Seq::empty()
    } else {
        let e = bytes.subrange(off, off + 32);
        if e[0] == 0 {
            Seq::empty()
        } else if e[0] == 0xE5 {
            dir_scan(bytes, fat_type, off + 32, Seq::empty())
        } else if e[11] == 0x0f {
            match lfn_fragment(e) {
                Some(f) => dir_scan(
                    bytes,
                    fat_type,
                    off + 32,
                    if e[0] & 0x40 != 0 { seq![f] } else { pending.push(f) },
                ),
                None => dir_scan(bytes, fat_type, off + 32, Seq::empty()),
            }
        } else if e[11] & 0x08 != 0 {
            dir_scan(bytes, fat_type, off + 32, Seq::empty())
        } else {
            match short_name(e.subrange(0, 11)) {
                None => dir_scan(bytes, fat_type, off + 32, Seq::empty()),
                Some(sn) => {
                    let name = if pending.len() == 0 || concat_rev(pending).len() == 0 {
                        sn
                    } else {
                        concat_rev(pending)
                    };
                    if name == seq!['.'] || name == seq!['.', '.'] {
                        dir_scan(bytes, fat_type, off + 32, Seq::empty())
                    } else {
                        seq![dir_entry_desc(e, fat_type, name)] + dir_scan(bytes, fat_type, off + 32, Seq::empty())
                    }
                },
            }
        }
    }
}

/// The 32-byte directory records, read from the one at `off`: a record whose first byte is
/// 0 ends the listing; a deleted one (first byte 0xE5) and a volume label (attribute bit
/// 0x08, not a long-name record) are skipped and drop any long-name fragments collected;
/// a readable short-name record lists an entry first, a directory when attribute bit 0x10
/// is set and a file otherwise, with the size in the 32-bit word at 28 and the first
/// cluster in the word at 26, plus 65536 times the word at 20 on FAT32 only.
pub proof fn lemma_dir_records(bytes: Seq<u8>, fat_type: FatType, off: int, pending: Seq<Seq<char>>)
    requires
        0 <= off,
        off + 32 <= bytes.len(),
    ensures
        ({
            let r = dir_scan(bytes, fat_type, off, pending);
            let e = |i: int| bytes[off + i];
            let attr = e(11);
            &&& e(0) == 0 ==> r.len() == 0
            &&& e(0) == 0xE5 ==> r == dir_scan(bytes, fat_type, off + 32, Seq::empty())
            &&& e(0) != 0 && e(0) != 0xE5 && attr != 0x0f && attr & 0x08 != 0 ==> r == dir_scan(
                bytes,
                fat_type,
                off + 32,
                Seq::empty(),
            )
            &&& e(0) != 0 && e(0) != 0xE5 && attr != 0x0f && attr & 0x08 == 0 && r.len() > 0 && r
                != dir_scan(bytes, fat_type, off + 32, Seq::empty()) ==> {
                &&& r[0].kind == (if attr & 0x10 != 0 { FatNodeKind::Directory } else { FatNodeKind::File })
                &&& r[0].size == e(28) + 256 * e(29) + 65536 * e(30) + 16777216 * e(31)
                &&& r[0].first_cluster == (e(26) + 256 * e(27)) + (if fat_type == FatType::Fat32 {
                    65536 * (e(20) + 256 * e(21))
                } else {
                    0
                })
                &&& r.drop_first() == dir_scan(bytes, fat_type, off + 32, Seq::empty())
            }
        }),
{
    let e = bytes.subrange(off, off + 32);
    let hi = le_u16(e, 20);
    let lo = le_u16(e, 26);
    assert(0 <= hi * 65536 + lo < 0x1_0000_0000) by (nonlinear_arith)
        requires
            0 <= hi < 65536,
            0 <= lo < 65536,
    ;
}

/// A directory listing never holds `.` or `..`, and holds at most one entry per 32-byte
/// record.
pub proof fn lemma_dir_scan_entries(bytes: Seq<u8>, fat_type: FatType, off: int, pending: Seq<Seq<char>>)
    requires
        0 <= off,
    ensures
        forall|k: int| 0 <= k < dir_scan(bytes, fat_type, off, pending).len() ==> {
            let n = (#[trigger] dir_scan(bytes, fat_type, off, pending)[k]).name;
            n != seq!['.'] && n != seq!['.', '.']
        },
        off <= bytes.len() ==> dir_scan(bytes, fat_type, off, pending).len() * 32 <= bytes.len() - off,
    decreases bytes.len() - off,
{
    if off + 32 <= bytes.len() {
        let e = bytes.subrange(off, off + 32);
        lemma_dir_scan_entries(bytes, fat_type, off + 32, Seq::empty());
        if e[11] == 0x0f {
            if let Some(f) = lfn_fragment(e) {
                lemma_dir_scan_entries(
                    bytes,
                    fat_type,
                    off + 32,
                    if e[0] & 0x40 != 0 { seq![f] } else { pending.push(f) },
                );
            }
        }
        let r = dir_scan(bytes, fat_type, off, pending);
        let rest = dir_scan(bytes, fat_type, off + 32, Seq::empty());
        assert forall|k: int| 0 <= k < r.len() implies {
            let n = (#[trigger] r[k]).name;
            n != seq!['.'] && n != seq!['.', '.']
        } by {
            if r.len() == rest.len() + 1 && e[0] != 0 && e[0] != 0xE5 && e[11] != 0x0f && e[11] & 0x08 == 0 && k > 0 {
                assert(r[k] == rest[k - 1]);
            }
        }
    }
}

fn is_dot_name(name: &Vec<char>) -> (b: bool)
    ensures
        b == (name@ == seq!['.'] || name@ == seq!['.', '.']),
{
    if name.len() == 1 {
        let r = name[0] == '.';
        assert(r ==> name@ =~= seq!['.']);
        r
    } else if name.len() == 2 {
        let r = name[0] == '.' && name[1] == '.';
        assert(r ==> name@ =~= seq!['.', '.']);
        r
    } else {
        false
    }
}

/// Scans the 32-byte records of a directory and lists its entries, joining
/// long-name fragments and skipping deleted, volume-label, `.` and `..` records.
pub fn parse_directory_entries(bytes: &[u8], fat_type: FatType) -> (entries: Vec<FatDirectoryEntry>)
    ensures
        entries_view(entries@) == dir_scan(bytes@, fat_type, 0, Seq::empty()),
{
    let mut entries: Vec<FatDirectoryEntry> = Vec::new();
    let mut pending = PendingLongName::new();
    let mut offset: usize = 0;
    let mut done = false;
    while !done && bytes.len() - offset >= DIRECTORY_ENTRY_BYTES
        invariant
            offset <= bytes@.len(),
            !done ==> entries_view(entries@) + dir_scan(bytes@, fat_type, offset as int, pending.view())
                == dir_scan(bytes@, fat_type, 0, Seq::empty()),
            done ==> entries_view(entries@) == dir_scan(bytes@, fat_type, 0, Seq::empty()),
        decreases bytes@.len() - offset, if done { 0int } else { 1int },
    {
        let entry = &bytes[offset..offset + DIRECTORY_ENTRY_BYTES];
        let ghost e = bytes@.subrange(offset as int, offset + 32);
        assert(entry@ == e);
        let first = entry[0];
        let attrs = entry[11];
        if first == 0x00 {
            done = true;
            assert(entries_view(entries@) + Seq::<DirEntryDesc>::empty() =~= entries_view(entries@));
        } else if first == 0xE5 {
            pending.clear();
            offset = offset + DIRECTORY_ENTRY_BYTES;
        } else if attrs == LFN_ATTRIBUTE {
            match decode_lfn_fragment(entry) {
                Some(fragment) => {
                    pending.push_fragment(fragment, (entry[0] & 0x40) != 0);
                },
                None => {
                    pending.clear();
                },
            }
            offset = offset + DIRECTORY_ENTRY_BYTES;
        } else if (attrs & ATTR_VOLUME_ID) != 0 {
            pending.clear();
            offset = offset + DIRECTORY_ENTRY_BYTES;
        } else {
            assert(entry@.subrange(0, 11) == e.subrange(0, 11));
            match parse_short_name(&entry[0..11]) {
                None => {
                    pending.clear();
                    offset = offset + DIRECTORY_ENTRY_BYTES;
                },
                Some(short) => {
                    let name = pending.take_or(short);
                    if is_dot_name(&name) {
                        offset = offset + DIRECTORY_ENTRY_BYTES;
                        assert(pending.view() =~= Seq::<Seq<char>>::empty());
                    } else {
                        let kind = if (attrs & ATTR_DIRECTORY) != 0 {
                            FatNodeKind::Directory
                        } else {
                            FatNodeKind::File
                        };
                        let size = read_u32_le(entry, 28) as usize;
                        let cluster_low = read_u16_le(entry, 26) as u32;
                        let cluster_high = if fat_type == FatType::Fat32 {
                            read_u16_le(entry, 20) as u32
                        } else {
                            0
                        };
                        assert(cluster_high <= 0xffff && cluster_low <= 0xffff ==> (cluster_high << 16) | cluster_low
                            == cluster_high * 65536 + cluster_low) by (bit_vector);
                        let item = FatDirectoryEntry {
                            name,
                            kind,
                            size,
                            first_cluster: (cluster_high << 16) | cluster_low,
                        };
                        let ghost before = entries_view(entries@);
                        assert(item.view() == dir_entry_desc(e, fat_type, item.name@));
                        entries.push(item);
                        assert(entries_view(entries@) =~= before.push(item.view()));
                        offset = offset + DIRECTORY_ENTRY_BYTES;
                        assert(pending.view() =~= Seq::<Seq<char>>::empty());
                        assert(before + (seq![item.view()] + dir_scan(bytes@, fat_type, offset as int, Seq::empty()))
                            =~= entries_view(entries@) + dir_scan(bytes@, fat_type, offset as int, Seq::empty()));
                    }
                },
            }
        }
    }
    if !done {
        assert(entries_view(entries@) + Seq::<DirEntryDesc>::empty() =~= entries_view(entries@));
    }
    entries
}


/// `/fat`, where the volume is mounted.
pub open spec fn fat_root() -> Seq<char> {
    seq!['/', 'f', 'a', 't']
}

fn fat_root_vec() -> (v: Vec<char>)
    ensures
        v@ == fat_root(),
{
    let mut v: Vec<char> = Vec::new();
    v.push('/');
    v.push('f');
    v.push('a');
    v.push('t');
    assert(v@ =~= fat_root());
    v
}

/// `s` with its trailing `/` characters removed.
pub open spec fn trim_trailing_slashes(s: Seq<char>) -> Seq<char>
    decreases s.len(),
{
    if s.len() > 0 && s.last() == '/' { trim_trailing_slashes(s.drop_last()) } else { s }
}

/// Index of the first `/` at or after `i` (or `s.len()`).
pub open spec fn next_slash(s: Seq<char>, i: int) -> int
    decreases s.len() - i,
{
    if i >= s.len() {
        s.len() as int
    } else if s[i] == '/' {
        i
    } else {
        next_slash(s, i + 1)
    }
}

pub proof fn lemma_next_slash(s: Seq<char>, i: int)
    requires
        0 <= i <= s.len(),
    ensures
        i <= next_slash(s, i) <= s.len(),
        next_slash(s, i) < s.len() ==> s[next_slash(s, i)] == '/',
        forall|j: int| i <= j < next_slash(s, i) ==> #[trigger] s[j] != '/',
    decreases s.len() - i,
{
    if i < s.len() && s[i] != '/' {
        lemma_next_slash(s, i + 1);
    }
}

/// Every `/`-separated component of `s` from `pos` on is non-empty and neither `.` nor `..`.
pub open spec fn components_ok(s: Seq<char>, pos: int) -> bool
    decreases s.len() - pos,
{
    if pos < 0 || pos > s.len() {
        false
    } else {
        let k = next_slash(s, pos);
        let comp = s.subrange(pos, k);
        &&& comp.len() > 0
        &&& comp != seq!['.']
        &&& comp != seq!['.', '.']
        &&& (k >= s.len() || {
            proof {
                lemma_next_slash(s, pos);
            }
            components_ok(s, k + 1)
        })
    }
}

/// The canonical form of a path under `/fat`, if it names one.
pub open spec fn normalized_fat_path(p: Seq<char>) -> Option<Seq<char>> {
    let root_slash = fat_root().push('/');
    if p == fat_root() || p == root_slash {
        Some(fat_root())
    } else if p.len() < 5 || p.subrange(0, 5) != root_slash {
        None
    } else {
        let t = trim_trailing_slashes(p);
        if t.len() < 5 || t.subrange(0, 5) != root_slash {
            None
        } else {
            let suffix = t.subrange(5, t.len() as int);
            if suffix.len() == 0 {
                Some(fat_root())
            } else if components_ok(suffix, 0) {
                Some(root_slash + suffix)
            } else {
                None
            }
        }
    }
}

fn starts_with_fat_root_slash(p: &[char]) -> (b: bool)
    ensures
        b == (p@.len() >= 5 && p@.subrange(0, 5) == fat_root().push('/')),
{
    let r = p.len() >= 5 && p[0] == '/' && p[1] == 'f' && p[2] == 'a' && p[3] == 't' && p[4] == '/';
    proof {
        if p@.len() >= 5 {
            let q = fat_root().push('/');
            assert(q[0] == '/' && q[1] == 'f' && q[2] == 'a' && q[3] == 't' && q[4] == '/');
            if r {
                assert(p@.subrange(0, 5) =~= q);
            } else if p@.subrange(0, 5) == q {
                assert(p@.subrange(0, 5)[0] == p@[0] && p@.subrange(0, 5)[1] == p@[1]);
                assert(p@.subrange(0, 5)[2] == p@[2] && p@.subrange(0, 5)[3] == p@[3]);
                assert(p@.subrange(0, 5)[4] == p@[4]);
            }
        }
    }
    r
}

/// Canonicalizes a path under `/fat`: drops trailing slashes and rejects empty,
/// `.` and `..` components.
pub fn normalize_fat_path(path: &[char]) -> (r: Option<Vec<char>>)
    ensures
        match r {
            Some(v) => normalized_fat_path(path@) == Some(v@),
            None => normalized_fat_path(path@) is None,
        },
{
    let is_root = path.len() == 4 && path[0] == '/' && path[1] == 'f' && path[2] == 'a' && path[3] == 't';
    let is_root_slash = path.len() == 5 && starts_with_fat_root_slash(path);
    assert(is_root == (path@ == fat_root())) by {
        if path@.len() == 4 {
            assert(is_root == (path@ =~= fat_root()));
        }
    }
    assert(is_root_slash == (path@ == fat_root().push('/'))) by {
        if path@.len() == 5 {
            assert(path@.subrange(0, 5) =~= path@);
        }
    }
    if is_root || is_root_slash {
        return Some(fat_root_vec());
    }
    if !starts_with_fat_root_slash(path) {
        return None;
    }
    let mut end = path.len();
    assert(path@.subrange(0, path@.len() as int) =~= path@);
    while end > 0 && path[end - 1] == '/'
        invariant
            end <= path@.len(),
            trim_trailing_slashes(path@.subrange(0, end as int)) == trim_trailing_slashes(path@),
        decreases end,
    {
        assert(path@.subrange(0, end as int).drop_last() =~= path@.subrange(0, end - 1));
        end = end - 1;
    }
    assert(path@.subrange(0, path@.len() as int) =~= path@);
    let ghost t = path@.subrange(0, end as int);
    assert(trim_trailing_slashes(t) == t);
    let trimmed = &path[0..end];
    if !starts_with_fat_root_slash(trimmed) {
        return None;
    }
    if end == 5 {
        return Some(fat_root_vec());
    }
    let ghost suffix = t.subrange(5, t.len() as int);
    let mut pos: usize = 5;
    let mut ok = true;
    let mut finished = false;
    while ok && !finished
        invariant
            5 <= pos <= end,
            end <= path@.len(),
            t == path@.subrange(0, end as int),
            suffix == t.subrange(5, t.len() as int),
            !finished && ok ==> (components_ok(suffix, 0) == components_ok(suffix, pos - 5)),
            !ok ==> !components_ok(suffix, 0),
            finished ==> ok && components_ok(suffix, 0),
        decreases end - pos, if ok && !finished { 1int } else { 0int },
    {
        proof {
            lemma_next_slash(suffix, pos - 5);
        }
        let mut k = pos;
        while k < end && path[k] != '/'
            invariant
                5 <= pos <= k <= end,
                end <= path@.len(),
                t == path@.subrange(0, end as int),
                suffix == t.subrange(5, t.len() as int),
                next_slash(suffix, pos - 5) == next_slash(suffix, k - 5),
            decreases end - k,
        {
            assert(t[k as int] == path@[k as int]);
            assert(suffix[k - 5] == t[k as int]);
            k = k + 1;
        }
        assert(k - 5 == next_slash(suffix, pos - 5));
        let len = k - pos;
        let is_dot = len == 1 && path[pos] == '.';
        let is_dotdot = len == 2 && path[pos] == '.' && path[pos + 1] == '.';
        let ghost comp = suffix.subrange(pos - 5, k - 5);
        assert(comp.len() == len);
        assert(seq!['.'][0] == '.' && seq!['.'].len() == 1);
        assert(seq!['.', '.'][0] == '.' && seq!['.', '.'][1] == '.' && seq!['.', '.'].len() == 2);
        assert(is_dot == (comp == seq!['.'])) by {
            if len == 1 {
                assert(comp[0] == suffix[pos - 5]);
                assert(suffix[pos - 5] == t[pos as int]);
                assert(comp[0] == path@[pos as int]);
                if is_dot {
                    assert(comp =~= seq!['.']);
                }
            }
        }
        assert(is_dotdot == (comp == seq!['.', '.'])) by {
            if len == 2 {
                assert(comp[0] == suffix[pos - 5] && comp[1] == suffix[pos - 4]);
                assert(suffix[pos - 5] == t[pos as int] && suffix[pos - 4] == t[pos + 1]);
                assert(comp[0] == path@[pos as int] && comp[1] == path@[pos + 1]);
                if is_dotdot {
                    assert(comp =~= seq!['.', '.']);
                }
            }
        }
        if len == 0 || is_dot || is_dotdot {
            ok = false;
        } else if k == end {
            finished = true;
        } else {
            pos = k + 1;
        }
    }
    if !ok {
        return None;
    }
    let mut normalized = fat_root_vec();
    let mut i: usize = 4;
    while i < end
        invariant
            4 <= i <= end,
            end <= path@.len(),
            path@.subrange(0, 5) == fat_root().push('/'),
            normalized@ == path@.subrange(0, i as int),
        decreases end - i,
    {
        normalized.push(path[i]);
        i = i + 1;
        assert(normalized@ =~= path@.subrange(0, i as int));
    }
    assert(normalized@ =~= fat_root().push('/') + suffix);
    Some(normalized)
}

/// `parent/name`.
pub fn join_fat_path(parent: &[char], name: &[char]) -> (path: Vec<char>)
    ensures
        path@ == parent@.push('/') + name@,
{
    let mut path: Vec<char> = Vec::new();
    let mut i: usize = 0;
    while i < parent.len()
        invariant
            i <= parent@.len(),
            path@ == parent@.subrange(0, i as int),
        decreases parent@.len() - i,
    {
        path.push(parent[i]);
        i = i + 1;
        assert(path@ =~= parent@.subrange(0, i as int));
    }
    path.push('/');
    let ghost pre = path@;
    assert(pre =~= parent@.push('/'));
    let mut j: usize = 0;
    while j < name.len()
        invariant
            j <= name@.len(),
            path@ == pre + name@.subrange(0, j as int),
        decreases name@.len() - j,
    {
        path.push(name[j]);
        j = j + 1;
        assert(path@ =~= pre + name@.subrange(0, j as int));
    }
    assert(name@.subrange(0, name@.len() as int) =~= name@);
    path
}

/// Number of non-empty `/`-separated components of `s` from index `i` on.
pub open spec fn components_from(s: Seq<char>, i: int) -> int
    decreases s.len() - i,
{
    if i < 0 || i >= s.len() {
        0
    } else if s[i] != '/' && (i == 0 || s[i - 1] == '/') {
        1 + components_from(s, i + 1)
    } else {
        components_from(s, i + 1)
    }
}

/// Depth of a path below `/fat`: its number of non-empty components after the prefix.
pub open spec fn fat_depth(p: Seq<char>) -> int {
    if p.len() >= 4 && p.subrange(0, 4) == fat_root() {
        components_from(p.subrange(4, p.len() as int), 0)
    } else {
        0
    }
}

/// Counts the components of a `/fat` path (0 for paths outside it).
pub fn fat_path_depth(path: &[char]) -> (d: usize)
    ensures
        d as int == fat_depth(path@),
{
    if !(path.len() >= 4 && path[0] == '/' && path[1] == 'f' && path[2] == 'a' && path[3] == 't') {
        assert(path@.len() >= 4 ==> path@.subrange(0, 4) != fat_root()) by {
            if path@.len() >= 4 && path@.subrange(0, 4) == fat_root() {
                assert(path@.subrange(0, 4)[0] == '/');
                assert(path@.subrange(0, 4)[1] == 'f');
                assert(path@.subrange(0, 4)[2] == 'a');
                assert(path@.subrange(0, 4)[3] == 't');
            }
        }
        return 0;
    }
    assert(path@.subrange(0, 4) =~= fat_root());
    let ghost rel = path@.subrange(4, path@.len() as int);
    let mut count: usize = 0;
    let mut i: usize = path.len();
    while i > 4
        invariant
            4 <= i <= path@.len(),
            rel == path@.subrange(4, path@.len() as int),
            count as int == components_from(rel, i - 4),
            count <= path@.len() - i,
        decreases i,
    {
        i = i - 1;
        if path[i] != '/' && (i == 4 || path[i - 1] == '/') {
            count = count + 1;
        }
    }
    count
}


/// Appends `src` to `dst`.
pub fn append_bytes(dst: &mut Vec<u8>, src: &[u8])
    ensures
        final(dst)@ == old(dst)@ + src@,
{
    let ghost pre = dst@;
    let mut i: usize = 0;
    while i < src.len()
        invariant
            i <= src@.len(),
            dst@ == pre + src@.subrange(0, i as int),
        decreases src@.len() - i,
    {
        dst.push(src[i]);
        i = i + 1;
        assert(dst@ =~= pre + src@.subrange(0, i as int));
    }
    assert(src@.subrange(0, src@.len() as int) =~= src@);
}

/// First sector of a data cluster.
pub open spec fn cluster_lba(part_start: int, bpb: BpbLayout, cluster: int) -> int {
    part_start + bpb.first_data_sector_offset + (cluster - 2) * bpb.sectors_per_cluster
}

/// The data area of a volume follows its root directory region. For a boot sector this
/// reader mounts, cluster 2 starts at the partition's first sector plus the reserved
/// sectors, the FAT copies (count times sectors per FAT, the 16-bit count or else the
/// 32-bit one) and the root directory's sectors (its entries times 32 bytes, rounded up to
/// whole sectors); that is the first sector after the root directory region. Each later
/// cluster starts one cluster's worth of sectors further on.
#[verifier::spinoff_prover]
pub proof fn lemma_data_clusters_follow_root_dir(s: Seq<u8>, part_start: int, cluster: int)
    requires
        s.len() == 512,
        bpb_valid(s),
        cluster >= 2,
    ensures
        ({
            let spf = if le_u16(s, 22) != 0 { le_u16(s, 22) } else { le_u32(s, 36) };
            let root_dir_sectors = (le_u16(s, 17) * 32 + 511) / 512;
            let bpb = bpb_of(s);
            &&& cluster_lba(part_start, bpb, cluster) == part_start + le_u16(s, 14) + s[16] * spf + root_dir_sectors
                + (cluster - 2) * s[13]
            &&& cluster_lba(part_start, bpb, 2) == part_start + bpb.root_dir_start_lba_offset + bpb.root_dir_sectors
            &&& cluster_lba(part_start, bpb, 2) == part_start + bpb.root_dir_start_lba_offset + (bpb.root_dir_entries * 32
                + 511) / 512
            &&& cluster_lba(part_start, bpb, cluster + 1) == cluster_lba(part_start, bpb, cluster) + s[13]
        }),
{
    let spf = if le_u16(s, 22) != 0 { le_u16(s, 22) } else { le_u32(s, 36) };
    let rds = (le_u16(s, 17) * 32 + 511) / 512;
    let ts16 = le_u16(s, 19);
    let total = if ts16 != 0 { ts16 } else { le_u32(s, 32) };
    assert(0 <= s[16] * spf) by (nonlinear_arith)
        requires
            0 <= s[16],
            0 <= spf,
    ;
    assert(0 <= rds);
    assert(total <= 0xFFFF_FFFF);
    assert(le_u16(s, 14) + s[16] * spf + rds < total);
    let bpb = bpb_of(s);
    assert(bpb.first_data_sector_offset == le_u16(s, 14) + s[16] * spf + rds);
    assert(bpb.root_dir_start_lba_offset == le_u16(s, 14) + s[16] * spf);
    assert(bpb.root_dir_sectors == rds);
    assert(bpb.root_dir_entries == le_u16(s, 17));
    assert(bpb.sectors_per_cluster == s[13]);
    let spc = s[13] as int;
    assert((cluster + 1 - 2) * spc == (cluster - 2) * spc + spc) by (nonlinear_arith);
}

/// Maps a data cluster (numbered from 2) to its first sector on the device; `None` below
/// cluster 2 or when the sector number does not fit in 64 bits.
pub fn cluster_to_lba(partition: &PartitionInfo, bpb: &BpbLayout, cluster: u32) -> (r: Option<u64>)
    ensures
        r == if cluster < 2 || cluster_lba(partition.start_lba as int, *bpb, cluster as int) > u64::MAX {
            None
        } else {
            Some(cluster_lba(partition.start_lba as int, *bpb, cluster as int) as u64)
        },
        cluster >= 2 && partition.start_lba < 0x100_0000_0000_0000 ==> 0 <= cluster_lba(
            partition.start_lba as int,
            *bpb,
            cluster as int,
        ) < 0x0101_0000_0000_0000,
{
    if cluster < 2 {
        return None;
    }
    assert(((cluster - 2) as int) * (bpb.sectors_per_cluster as int) <= 0xFFFF_FFFFint * 255) by (nonlinear_arith)
        requires
            cluster - 2 <= 0xFFFF_FFFFint,
            bpb.sectors_per_cluster <= 255,
    ;
    assert(0 <= ((cluster - 2) as int) * (bpb.sectors_per_cluster as int)) by (nonlinear_arith)
        requires
            cluster >= 2,
    ;
    let offset = ((cluster - 2) as u64) * (bpb.sectors_per_cluster as u64);
    match partition.start_lba.checked_add(bpb.first_data_sector_offset as u64) {
        Some(base) => base.checked_add(offset),
        None => None,
    }
}

/// The FAT entry of `cluster`, read from the first copy of the table.
pub open spec fn fat_entry_value(images: Seq<Seq<u8>>, part: PartitionInfo, bpb: BpbLayout, cluster: int) -> Option<u32> {
    let width = if bpb.fat_type == FatType::Fat16 { 2int } else { 4int };
    let off = cluster * width;
    let lba = part.start_lba + bpb.fat_start_lba_offset + off / 512;
    match image_sector(images, part.device_id as int, lba) {
        Some(sec) => if bpb.fat_type == FatType::Fat16 {
            Some(le_u16(sec, off % 512) as u32)
        } else {
            Some((le_u32(sec, off % 512) as u32) & 0x0fff_ffffu32)
        },
        None => None,
    }
}

/// The FAT of a volume starts right after its reserved sectors. For a boot sector this
/// reader mounts, the FAT16 entry of cluster `c` is the little-endian 16-bit word at byte
/// 2c of the first FAT, and the FAT32 entry the low 28 bits of the little-endian 32-bit
/// word at byte 4c, counted from the partition's first sector plus the reserved sectors;
/// there is no entry when the sector holding it lies past the device's end.
pub proof fn lemma_fat_entry_bytes(images: Seq<Seq<u8>>, part: PartitionInfo, s: Seq<u8>, c: int)
    requires
        s.len() == 512,
        bpb_valid(s),
        0 <= part.device_id < images.len(),
        0 <= c,
    ensures
        ({
            let bpb = bpb_of(s);
            let img = images[part.device_id as int];
            let width = if bpb.fat_type == FatType::Fat16 { 2int } else { 4int };
            let pos = (part.start_lba + le_u16(s, 14)) * 512 + c * width;
            let lba = part.start_lba + le_u16(s, 14) + (c * width) / 512;
            let w16 = device_byte(img, pos) + 256 * device_byte(img, pos + 1);
            let w32 = w16 + 65536 * (device_byte(img, pos + 2) + 256 * device_byte(img, pos + 3));
            &&& lba * 512 >= img.len() ==> fat_entry_value(images, part, bpb, c) is None
            &&& lba * 512 < img.len() && bpb.fat_type == FatType::Fat16 ==> fat_entry_value(images, part, bpb, c)
                == Some(w16 as u32)
            &&& lba * 512 < img.len() && bpb.fat_type == FatType::Fat32 ==> fat_entry_value(images, part, bpb, c)
                == Some((w32 as u32) & 0x0fff_ffffu32)
        }),
{
    let bpb = bpb_of(s);
    let img = images[part.device_id as int];
    let width = if bpb.fat_type == FatType::Fat16 { 2int } else { 4int };
    let off = c * width;
    let base = part.start_lba + le_u16(s, 14);
    let lba = base + off / 512;
    assert(bpb.fat_start_lba_offset == le_u16(s, 14));
    assert(0 <= off % 512 <= 512 - width) by (nonlinear_arith)
        requires
            off == c * width,
            0 <= c,
            width == 2 || width == 4,
    {
        if width == 2 {
            assert(off == 2 * c);
        } else {
            assert(off == 4 * c);
        }
    }
    assert(lba * 512 + off % 512 == base * 512 + off) by (nonlinear_arith)
        requires
            lba == base + off / 512,
            0 <= off,
    ;
    if lba * 512 < img.len() {
        let sec = sector_at(img, lba);
        assert forall|t: int| 0 <= t < width implies #[trigger] sec[off % 512 + t] == device_byte(img, base * 512 + off + t) by {
            assert(lba * 512 + (off % 512 + t) == base * 512 + off + t);
        }
    }
}

/// Reads the FAT entry of `cluster`.
pub fn read_fat_entry(block: &mut BlockState, partition: &PartitionInfo, bpb: &BpbLayout, cluster: u32) -> (r: Option<u32>)
    requires
        old(block).wf(),
        old(block).initialized,
        partition.start_lba < 0x100_0000_0000_0000,
    ensures
        final(block).wf(),
        final(block).same_layout(old(block)),
        r == fat_entry_value(old(block).images(), *partition, *bpb, cluster as int),
{
    let width: u64 = match bpb.fat_type {
        FatType::Fat16 => 2,
        FatType::Fat32 => 4,
    };
    let fat_offset = (cluster as u64) * width;
    let fat_sector_lba = partition.start_lba + bpb.fat_start_lba_offset as u64 + fat_offset / 512;
    let fat_sector_offset = (fat_offset % 512) as usize;
    assert(fat_sector_offset + width <= 512) by (nonlinear_arith)
        requires
            fat_sector_offset == (cluster as int * width) % 512,
            width == 2 || width == 4,
    ;
    match block.read_sector(partition.device_id, fat_sector_lba) {
        Some(sector) => match bpb.fat_type {
            FatType::Fat16 => Some(read_u16_le(sector.as_slice(), fat_sector_offset) as u32),
            FatType::Fat32 => Some(read_u32_le(sector.as_slice(), fat_sector_offset) & 0x0fff_ffff),
        },
        None => None,
    }
}

/// The bytes of the `count` sectors starting at `lba`, if they all start inside the image.
pub open spec fn sectors_data(images: Seq<Seq<u8>>, device_id: int, lba: int, count: int) -> Option<Seq<u8>> {
    if 0 <= device_id < images.len() && 0 <= lba && lba + count <= sectors_for(images[device_id].len() as int) {
        Some(Seq::new((count * 512) as nat, |i: int| device_byte(images[device_id], lba * 512 + i)))
    } else {
        None
    }
}

/// Reads `count` consecutive sectors, failing at the first that cannot be read.
pub fn read_sectors(block: &mut BlockState, device_id: u16, lba: u64, count: u32) -> (r: Option<Vec<u8>>)
    requires
        old(block).wf(),
        old(block).initialized,
        count >= 1,
        lba + count <= u64::MAX,
    ensures
        final(block).wf(),
        final(block).same_layout(old(block)),
        match r {
            Some(v) => sectors_data(old(block).images(), device_id as int, lba as int, count as int) == Some(v@),
            None => sectors_data(old(block).images(), device_id as int, lba as int, count as int) is None,
        },
{
    let ghost images = block.images();
    let mut bytes: Vec<u8> = Vec::new();
    let mut k: u32 = 0;
    let mut failed = false;
    while k < count && !failed
        invariant
            k <= count,
            block.wf(),
            block.same_layout(old(block)),
            images == old(block).images(),
            block.initialized,
            lba + count <= u64::MAX,
            !failed && k > 0 ==> 0 <= device_id < images.len() && lba + k <= sectors_for(images[device_id as int].len() as int),
            !failed && k > 0 ==> bytes@ == Seq::new((k * 512) as nat, |i: int| device_byte(images[device_id as int], lba * 512 + i)),
            failed ==> sectors_data(images, device_id as int, lba as int, count as int) is None,
            k == 0 ==> bytes@.len() == 0,
        decreases count - k, if failed { 0int } else { 1int },
    {
        proof {
            assert(block.images() == images) by {
                assert(block.images() =~= images);
            }
        }
        match block.read_sector(device_id, lba + k as u64) {
            Some(sector) => {
                proof {
                    crate::block::lemma_sector_inside(images[device_id as int].len() as int, lba + k);
                }
                let ghost pre = bytes@;
                assert(k == 0 ==> pre =~= Seq::new((k * 512) as nat, |i: int| device_byte(images[device_id as int], lba * 512 + i)));
                append_bytes(&mut bytes, sector.as_slice());
                k = k + 1;
                assert(bytes@ =~= Seq::new((k * 512) as nat, |i: int| device_byte(images[device_id as int], lba * 512 + i)));
            },
            None => {
                proof {
                    if 0 <= device_id < images.len() {
                        crate::block::lemma_sector_inside(images[device_id as int].len() as int, lba + k);
                    }
                }
                failed = true;
            },
        }
    }
    if failed {
        None
    } else {
        Some(bytes)
    }
}


/// The volume layout a mounted reader relies on.
pub open spec fn bpb_usable(bpb: BpbLayout) -> bool {
    bpb.sectors_per_cluster >= 1
}

/// Bytes of the cluster chain starting at `cluster`, after `steps` clusters were already
/// followed; at most `MAX_CLUSTER_CHAIN_STEPS` clusters are taken. `None` when a cluster
/// cannot be read, the FAT cannot be read, or the chain reaches a bad cluster.
pub open spec fn chain_bytes(images: Seq<Seq<u8>>, part: PartitionInfo, bpb: BpbLayout, cluster: u32, steps: int) -> Option<Seq<u8>>
    decreases 4096 - steps,
{
    if steps >= 4096 {
        Some(Seq::empty())
    } else if cluster < 2 {
        None
    } else {
        match sectors_data(
            images,
            part.device_id as int,
            cluster_lba(part.start_lba as int, bpb, cluster as int),
            bpb.sectors_per_cluster as int,
        ) {
            None => None,
            Some(data) => match fat_entry_value(images, part, bpb, cluster as int) {
                None => None,
                Some(next) => {
                    let eoc = if bpb.fat_type == FatType::Fat16 { next >= FAT16_EOC_MIN } else { next >= FAT32_EOC_MIN };
                    let bad = if bpb.fat_type == FatType::Fat16 { next == FAT16_BAD_CLUSTER } else { next == FAT32_BAD_CLUSTER };
                    if bad {
                        None
                    } else if next == 0 || next == cluster || eoc {
                        Some(data)
                    } else {
                        match chain_bytes(images, part, bpb, next, steps + 1) {
                            Some(rest) => Some(data + rest),
                            None => None,
                        }
                    }
                },
            },
        }
    }
}

/// The bytes of a file or directory whose data starts at `first_cluster` (none below 2).
pub open spec fn cluster_chain(images: Seq<Seq<u8>>, part: PartitionInfo, bpb: BpbLayout, first_cluster: u32) -> Option<Seq<u8>> {
    if first_cluster < 2 { Some(Seq::empty()) } else { chain_bytes(images, part, bpb, first_cluster, 0) }
}

pub open spec fn opt_prepend(p: Seq<u8>, o: Option<Seq<u8>>) -> Option<Seq<u8>> {
    match o {
        Some(r) => Some(p + r),
        None => None,
    }
}

/// Reads and concatenates the clusters of a chain.
pub fn read_cluster_chain_bytes(block: &mut BlockState, partition: &PartitionInfo, bpb: &BpbLayout, first_cluster: u32) -> (r: Option<Vec<u8>>)
    requires
        old(block).wf(),
        old(block).initialized,
        partition.start_lba < 0x100_0000_0000_0000,
        bpb_usable(*bpb),
    ensures
        final(block).wf(),
        final(block).same_layout(old(block)),
        match r {
            Some(v) => cluster_chain(old(block).images(), *partition, *bpb, first_cluster) == Some(v@),
            None => cluster_chain(old(block).images(), *partition, *bpb, first_cluster) is None,
        },
{
    if first_cluster < 2 {
        return Some(Vec::new());
    }
    let ghost images = block.images();
    let mut bytes: Vec<u8> = Vec::new();
    let mut cluster = first_cluster;
    let mut steps: usize = 0;
    let mut failed = false;
    let mut done = false;
    while steps < MAX_CLUSTER_CHAIN_STEPS && !failed && !done
        invariant
            steps <= 4096,
            block.wf(),
            block.same_layout(old(block)),
            block.initialized,
            images == old(block).images(),
            partition.start_lba < 0x100_0000_0000_0000,
            bpb_usable(*bpb),
            !done ==> bytes@.len() <= steps * 130560,
            !failed && !done ==> chain_bytes(images, *partition, *bpb, first_cluster, 0) == opt_prepend(
                bytes@,
                chain_bytes(images, *partition, *bpb, cluster, steps as int),
            ),
            done ==> chain_bytes(images, *partition, *bpb, first_cluster, 0) == Some(bytes@),
            failed ==> chain_bytes(images, *partition, *bpb, first_cluster, 0) is None,
        decreases 4096 - steps, if failed || done { 0int } else { 1int },
    {
        proof {
            assert(block.images() =~= images);
        }
        match cluster_to_lba(partition, bpb, cluster) {
            None => {
                failed = true;
            },
            Some(cluster_lba) => {
                match read_sectors(block, partition.device_id, cluster_lba, bpb.sectors_per_cluster as u32) {
                    None => {
                        failed = true;
                    },
                    Some(data) => {
                        proof {
                            assert(block.images() =~= images);
                        }
                        match read_fat_entry(block, partition, bpb, cluster) {
                            None => {
                                failed = true;
                            },
                            Some(next) => {
                                if is_bad_cluster(bpb.fat_type, next) {
                                    failed = true;
                                } else {
                                    let ghost pre = bytes@;
                                    assert(data@.len() == bpb.sectors_per_cluster * 512);
                                    append_bytes(&mut bytes, data.as_slice());
                                    if next == 0 || next == cluster || is_end_of_chain(bpb.fat_type, next) {
                                        done = true;
                                    } else {
                                        proof {
                                            match chain_bytes(images, *partition, *bpb, next, steps + 1) {
                                                Some(rest) => {
                                                    assert(pre + (data@ + rest) =~= bytes@ + rest);
                                                },
                                                None => {},
                                            }
                                        }
                                        cluster = next;
                                        steps = steps + 1;
                                    }
                                }
                            },
                        }
                    },
                }
            },
        }
    }
    if failed {
        None
    } else {
        if !done {
            assert(bytes@ + Seq::<u8>::empty() =~= bytes@);
        }
        Some(bytes)
    }
}


/// The fixed root directory area of a FAT16 volume.
pub open spec fn root_dir_bytes(images: Seq<Seq<u8>>, part: PartitionInfo, bpb: BpbLayout) -> Option<Seq<u8>> {
    if bpb.root_dir_sectors == 0 {
        Some(Seq::empty())
    } else {
        sectors_data(
            images,
            part.device_id as int,
            part.start_lba + bpb.root_dir_start_lba_offset,
            bpb.root_dir_sectors as int,
        )
    }
}

/// Reads the fixed root directory area of a FAT16 volume.
pub fn read_fat16_root_directory_bytes(block: &mut BlockState, partition: &PartitionInfo, bpb: &BpbLayout) -> (r: Option<Vec<u8>>)
    requires
        old(block).wf(),
        old(block).initialized,
        partition.start_lba < 0x100_0000_0000_0000,
    ensures
        final(block).wf(),
        final(block).same_layout(old(block)),
        match r {
            Some(v) => root_dir_bytes(old(block).images(), *partition, *bpb) == Some(v@),
            None => root_dir_bytes(old(block).images(), *partition, *bpb) is None,
        },
{
    if bpb.root_dir_sectors == 0 {
        return Some(Vec::new());
    }
    let start_lba = partition.start_lba + bpb.root_dir_start_lba_offset as u64;
    read_sectors(block, partition.device_id, start_lba, bpb.root_dir_sectors)
}

/// The first `size` bytes of a file's cluster chain.
pub open spec fn file_content(images: Seq<Seq<u8>>, part: PartitionInfo, bpb: BpbLayout, first_cluster: u32, size: int) -> Option<Seq<u8>> {
    if size == 0 {
        Some(Seq::empty())
    } else if first_cluster < 2 {
        None
    } else {
        match cluster_chain(images, part, bpb, first_cluster) {
            Some(b) => if b.len() < size { None } else { Some(b.subrange(0, size)) },
            None => None,
        }
    }
}

/// Reads a file of `size` bytes whose data starts at `first_cluster`.
pub fn read_file_content(block: &mut BlockState, partition: &PartitionInfo, bpb: &BpbLayout, first_cluster: u32, size: usize) -> (r: Option<Vec<u8>>)
    requires
        old(block).wf(),
        old(block).initialized,
        partition.start_lba < 0x100_0000_0000_0000,
        bpb_usable(*bpb),
    ensures
        final(block).wf(),
        final(block).same_layout(old(block)),
        match r {
            Some(v) => file_content(old(block).images(), *partition, *bpb, first_cluster, size as int) == Some(v@),
            None => file_content(old(block).images(), *partition, *bpb, first_cluster, size as int) is None,
        },
{
    if size == 0 {
        return Some(Vec::new());
    }
    if first_cluster < 2 {
        return None;
    }
    let mut bytes = match read_cluster_chain_bytes(block, partition, bpb, first_cluster) {
        Some(b) => b,
        None => {
            return None;
        },
    };
    if bytes.len() < size {
        return None;
    }
    bytes.truncate(size);
    assert(bytes@ =~= file_content(old(block).images(), *partition, *bpb, first_cluster, size as int).unwrap());
    Some(bytes)
}

/// The entries of the root directory.
pub open spec fn root_entries(images: Seq<Seq<u8>>, part: PartitionInfo, bpb: BpbLayout) -> Option<Seq<DirEntryDesc>> {
    let bytes = if bpb.fat_type == FatType::Fat16 {
        root_dir_bytes(images, part, bpb)
    } else {
        cluster_chain(images, part, bpb, bpb.root_dir_first_cluster)
    };
    match bytes {
        Some(b) => Some(dir_scan(b, bpb.fat_type, 0, Seq::empty())),
        None => None,
    }
}

/// The entries of the subdirectory whose data starts at `first_cluster`.
pub open spec fn subdirectory_entries(images: Seq<Seq<u8>>, part: PartitionInfo, bpb: BpbLayout, first_cluster: u32) -> Option<Seq<DirEntryDesc>> {
    match cluster_chain(images, part, bpb, first_cluster) {
        Some(b) => Some(dir_scan(b, bpb.fat_type, 0, Seq::empty())),
        None => None,
    }
}

pub fn read_root_directory_entries(block: &mut BlockState, partition: &PartitionInfo, bpb: &BpbLayout) -> (r: Option<Vec<FatDirectoryEntry>>)
    requires
        old(block).wf(),
        old(block).initialized,
        partition.start_lba < 0x100_0000_0000_0000,
        bpb_usable(*bpb),
    ensures
        final(block).wf(),
        final(block).same_layout(old(block)),
        match r {
            Some(v) => root_entries(old(block).images(), *partition, *bpb) == Some(entries_view(v@)),
            None => root_entries(old(block).images(), *partition, *bpb) is None,
        },
{
    let bytes = match bpb.fat_type {
        FatType::Fat16 => read_fat16_root_directory_bytes(block, partition, bpb),
        FatType::Fat32 => read_cluster_chain_bytes(block, partition, bpb, bpb.root_dir_first_cluster),
    };
    match bytes {
        Some(b) => Some(parse_directory_entries(b.as_slice(), bpb.fat_type)),
        None => None,
    }
}

pub fn read_subdirectory_entries(block: &mut BlockState, partition: &PartitionInfo, bpb: &BpbLayout, first_cluster: u32) -> (r: Option<Vec<FatDirectoryEntry>>)
    requires
        old(block).wf(),
        old(block).initialized,
        partition.start_lba < 0x100_0000_0000_0000,
        bpb_usable(*bpb),
    ensures
        final(block).wf(),
        final(block).same_layout(old(block)),
        match r {
            Some(v) => subdirectory_entries(old(block).images(), *partition, *bpb, first_cluster) == Some(entries_view(v@)),
            None => subdirectory_entries(old(block).images(), *partition, *bpb, first_cluster) is None,
        },
{
    if first_cluster < 2 {
        let v: Vec<FatDirectoryEntry> = Vec::new();
        assert(entries_view(v@) =~= dir_scan(Seq::<u8>::empty(), bpb.fat_type, 0, Seq::empty()));
        return Some(v);
    }
    match read_cluster_chain_bytes(block, partition, bpb, first_cluster) {
        Some(b) => Some(parse_directory_entries(b.as_slice(), bpb.fat_type)),
        None => None,
    }
}


/// A node of the mounted tree. `cluster` records where the node's data starts on disk.
pub struct FatNode {
    pub path: Vec<char>,
    pub name: Vec<char>,
    pub kind: FatNodeKind,
    pub size: usize,
    pub content: Vec<u8>,
    pub children: Vec<usize>,
    pub cluster: Ghost<u32>,
}

/// Node `j` is listed among the children of an earlier node.
pub open spec fn has_parent(nodes: Seq<FatNode>, j: int) -> bool {
    exists|p: int| 0 <= p < j && #[trigger] nodes[p].children@.contains(j as usize)
}

/// Structure of the mounted tree: the root `/fat` comes first, every other node is a
/// later child of an earlier node whose path it extends by its name, and every file
/// holds exactly the bytes of its data on disk.
pub open spec fn tree_ok(nodes: Seq<FatNode>, images: Seq<Seq<u8>>, part: PartitionInfo, bpb: BpbLayout) -> bool {
    &&& nodes.len() >= 1
    &&& nodes[0].path@ == fat_root()
    &&& nodes[0].kind == FatNodeKind::Directory
    &&& forall|i: int, k: int|
        0 <= i < nodes.len() && 0 <= k < nodes[i].children@.len() ==> {
            let c = #[trigger] nodes[i].children@[k] as int;
            &&& i < c < nodes.len()
            &&& nodes[c].path@ == nodes[i].path@.push('/') + nodes[c].name@
        }
    &&& forall|j: int| 0 < j < nodes.len() ==> #[trigger] has_parent(nodes, j)
    &&& forall|i: int|
        0 <= i < nodes.len() && (#[trigger] nodes[i]).kind == FatNodeKind::File ==> {
            &&& nodes[i].children@.len() == 0
            &&& nodes[i].content@.len() == nodes[i].size
            &&& file_content(images, part, bpb, nodes[i].cluster@, nodes[i].size as int) == Some(nodes[i].content@)
        }
}

/// Number of UTF-8 bytes that encode `c`.
pub open spec fn utf8_char_len(c: char) -> int {
    if (c as u32) < 0x80 { 1 } else if (c as u32) < 0x800 { 2 } else if (c as u32) < 0x10000 { 3 } else { 4 }
}

pub open spec fn utf8_len(s: Seq<char>) -> int
    decreases s.len(),
{
    if s.len() == 0 { 0 } else { utf8_len(s.drop_last()) + utf8_char_len(s.last()) }
}

/// Lists the names of the given children, one per line (indices out of range are skipped).
pub open spec fn listing(nodes: Seq<FatNode>, children: Seq<usize>) -> Seq<char>
    decreases children.len(),
{
    if children.len() == 0 {
        Seq::empty()
    } else {
        let c = children.last() as int;
        listing(nodes, children.drop_last()) + if c < nodes.len() {
            nodes[c].name@.push('\n')
        } else {
            Seq::empty()
        }
    }
}

/// Renders a directory node's listing: each child's name on its own line.
pub fn render_directory_listing(nodes: &Vec<FatNode>, node_index: usize) -> (text: Vec<char>)
    requires
        node_index < nodes@.len(),
    ensures
        text@ == listing(nodes@, nodes@[node_index as int].children@),
{
    let children = &nodes[node_index].children;
    let mut text: Vec<char> = Vec::new();
    let mut k: usize = 0;
    while k < children.len()
        invariant
            k <= children@.len(),
            children@ == nodes@[node_index as int].children@,
            text@ == listing(nodes@, children@.subrange(0, k as int)),
        decreases children@.len() - k,
    {
        let c = children[k];
        assert(children@.subrange(0, k as int + 1).drop_last() =~= children@.subrange(0, k as int));
        if c < nodes.len() {
            let name = &nodes[c].name;
            let ghost pre = text@;
            let mut j: usize = 0;
            while j < name.len()
                invariant
                    j <= name@.len(),
                    text@ == pre + name@.subrange(0, j as int),
                decreases name@.len() - j,
            {
                text.push(name[j]);
                j = j + 1;
                assert(text@ =~= pre + name@.subrange(0, j as int));
            }
            text.push('\n');
            assert(name@.subrange(0, name@.len() as int) =~= name@);
            assert(text@ =~= pre + name@.push('\n'));
        } else {
            assert(text@ =~= text@ + Seq::<char>::empty());
        }
        k = k + 1;
    }
    assert(children@.subrange(0, children@.len() as int) =~= children@);
    text
}

/// The UTF-8 length of a text (saturating at `usize::MAX`).
pub fn utf8_text_len(text: &Vec<char>) -> (n: usize)
    ensures
        n as int == if utf8_len(text@) > usize::MAX { usize::MAX as int } else { utf8_len(text@) },
{
    let mut n: usize = 0;
    let mut i: usize = 0;
    while i < text.len()
        invariant
            i <= text@.len(),
            n as int == if utf8_len(text@.subrange(0, i as int)) > usize::MAX {
                usize::MAX as int
            } else {
                utf8_len(text@.subrange(0, i as int))
            },
        decreases text@.len() - i,
    {
        assert(text@.subrange(0, i as int + 1).drop_last() =~= text@.subrange(0, i as int));
        let c = text[i] as u32;
        let w: usize = if c < 0x80 { 1 } else if c < 0x800 { 2 } else if c < 0x10000 { 3 } else { 4 };
        n = n.saturating_add(w);
        i = i + 1;
    }
    assert(text@.subrange(0, text@.len() as int) =~= text@);
    n
}


/// A copy of a character sequence.
pub fn copy_chars(s: &[char]) -> (v: Vec<char>)
    ensures
        v@ == s@,
{
    let mut v: Vec<char> = Vec::new();
    let mut i: usize = 0;
    while i < s.len()
        invariant
            i <= s@.len(),
            v@ == s@.subrange(0, i as int),
        decreases s@.len() - i,
    {
        v.push(s[i]);
        i = i + 1;
        assert(v@ =~= s@.subrange(0, i as int));
    }
    assert(s@.subrange(0, s@.len() as int) =~= s@);
    v
}

proof fn lemma_tree_push_child(
    nodes: Seq<FatNode>,
    new_nodes: Seq<FatNode>,
    images: Seq<Seq<u8>>,
    part: PartitionInfo,
    bpb: BpbLayout,
    parent: int,
    child: FatNode,
)
    requires
        tree_ok(nodes, images, part, bpb),
        0 <= parent < nodes.len(),
        child.children@.len() == 0,
        child.path@ == nodes[parent].path@.push('/') + child.name@,
        child.kind == FatNodeKind::File ==> child.content@.len() == child.size && file_content(
            images,
            part,
            bpb,
            child.cluster@,
            child.size as int,
        ) == Some(child.content@),
        new_nodes.len() == nodes.len() + 1,
        nodes.len() < usize::MAX,
        new_nodes[nodes.len() as int] == child,
        forall|i: int| 0 <= i < nodes.len() && i != parent ==> new_nodes[i] == nodes[i],
        new_nodes[parent].path == nodes[parent].path,
        new_nodes[parent].name == nodes[parent].name,
        new_nodes[parent].kind == nodes[parent].kind,
        new_nodes[parent].size == nodes[parent].size,
        new_nodes[parent].content == nodes[parent].content,
        new_nodes[parent].cluster == nodes[parent].cluster,
        nodes[parent].kind == FatNodeKind::Directory,
        new_nodes[parent].children@ == nodes[parent].children@.push(nodes.len() as usize),
    ensures
        tree_ok(new_nodes, images, part, bpb),
{
    let n = nodes.len() as int;
    assert forall|i: int, k: int|
        0 <= i < new_nodes.len() && 0 <= k < new_nodes[i].children@.len() implies {
            let c = #[trigger] new_nodes[i].children@[k] as int;
            &&& i < c < new_nodes.len()
            &&& new_nodes[c].path@ == new_nodes[i].path@.push('/') + new_nodes[c].name@
        } by {
        let c = new_nodes[i].children@[k] as int;
        if i == n {
            assert(new_nodes[i].children@.len() == 0);
        } else if i == parent && k == nodes[parent].children@.len() {
            assert(c == n);
            assert(new_nodes[c] == child);
            assert(new_nodes[i].path@ == nodes[parent].path@);
        } else {
            let kk = nodes[i].children@[k];
            assert(new_nodes[i].children@[k] == kk);
            assert(i < kk < nodes.len());
            assert(nodes[kk as int].path@ == nodes[i].path@.push('/') + nodes[kk as int].name@);
            assert(new_nodes[kk as int].path == nodes[kk as int].path);
            assert(new_nodes[kk as int].name == nodes[kk as int].name);
            assert(new_nodes[i].path == nodes[i].path);
        }
    }
    assert forall|j: int| 0 < j < new_nodes.len() implies #[trigger] has_parent(new_nodes, j) by {
        if j == n {
            assert(new_nodes[parent].children@[nodes[parent].children@.len() as int] == n as usize);
            assert(new_nodes[parent].children@.contains(j as usize));
        } else {
            assert(has_parent(nodes, j));
            let p = choose|p: int| 0 <= p < j && #[trigger] nodes[p].children@.contains(j as usize);
            if p == parent {
                let k = choose|k: int| 0 <= k < nodes[p].children@.len() && nodes[p].children@[k] == j as usize;
                assert(new_nodes[p].children@[k] == j as usize);
            }
            assert(new_nodes[p].children@.contains(j as usize));
        }
    }
}

proof fn lemma_tree_set_dir_size(
    before: Seq<FatNode>,
    after: Seq<FatNode>,
    images: Seq<Seq<u8>>,
    part: PartitionInfo,
    bpb: BpbLayout,
    idx: int,
)
    requires
        tree_ok(before, images, part, bpb),
        0 <= idx < before.len(),
        before[idx].kind == FatNodeKind::Directory,
        after.len() == before.len(),
        forall|i: int| 0 <= i < before.len() && i != idx ==> after[i] == before[i],
        after[idx].path == before[idx].path,
        after[idx].name == before[idx].name,
        after[idx].kind == before[idx].kind,
        after[idx].children == before[idx].children,
        after[idx].content == before[idx].content,
        after[idx].cluster == before[idx].cluster,
    ensures
        tree_ok(after, images, part, bpb),
{
    assert forall|j: int| 0 < j < after.len() implies #[trigger] has_parent(after, j) by {
        assert(has_parent(before, j));
        let p = choose|p: int| 0 <= p < j && #[trigger] before[p].children@.contains(j as usize);
        assert(after[p].children@ == before[p].children@);
    }
    assert forall|a: int, k: int|
        0 <= a < after.len() && 0 <= k < after[a].children@.len() implies {
            let c = #[trigger] after[a].children@[k] as int;
            &&& a < c < after.len()
            &&& after[c].path@ == after[a].path@.push('/') + after[c].name@
        } by {
        assert(after[a].children@ == before[a].children@);
        let c = before[a].children@[k] as int;
        assert(after[c].path == before[c].path && after[c].name == before[c].name);
    }
    assert forall|a: int| 0 <= a < after.len() && (#[trigger] after[a]).kind == FatNodeKind::File implies {
        &&& after[a].children@.len() == 0
        &&& after[a].content@.len() == after[a].size
        &&& file_content(images, part, bpb, after[a].cluster@, after[a].size as int) == Some(after[a].content@)
    } by {
        assert(a != idx);
        assert(after[a] == before[a]);
    }
}

/// Whether a directory with entries `es`, at recursion depth `depth`, loads in full: each
/// file's content can be read and, while `depth` is below the recursion limit, each
/// subdirectory's entries can be read and load in full one level deeper.
pub open spec fn tree_loadable(images: Seq<Seq<u8>>, part: PartitionInfo, bpb: BpbLayout, es: Seq<DirEntryDesc>, depth: int) -> bool
    decreases MAX_DIRECTORY_RECURSION_DEPTH - depth, es.len(),
{
    if es.len() == 0 {
        true
    } else {
        let e = es.last();
        let last_ok = if e.kind == FatNodeKind::File {
            file_content(images, part, bpb, e.first_cluster, e.size as int) is Some
        } else if depth >= MAX_DIRECTORY_RECURSION_DEPTH {
            true
        } else {
            match subdirectory_entries(images, part, bpb, e.first_cluster) {
                Some(children) => tree_loadable(images, part, bpb, children, depth + 1),
                None => false,
            }
        };
        tree_loadable(images, part, bpb, es.drop_last(), depth) && last_ok
    }
}

proof fn lemma_loadable_prefix(images: Seq<Seq<u8>>, part: PartitionInfo, bpb: BpbLayout, es: Seq<DirEntryDesc>, depth: int, k: int)
    requires
        0 <= k <= es.len(),
        tree_loadable(images, part, bpb, es, depth),
    ensures
        tree_loadable(images, part, bpb, es.take(k), depth),
    decreases es.len(),
{
    if k < es.len() {
        assert(es.drop_last().take(k) =~= es.take(k));
        lemma_loadable_prefix(images, part, bpb, es.drop_last(), depth, k);
    } else {
        assert(es.take(k) =~= es);
    }
}

/// Adds the entries of a directory below node `parent_index`, descending into
/// subdirectories down to `MAX_DIRECTORY_RECURSION_DEPTH` levels. Fails when any
/// directory or file cannot be read.
pub fn populate_directory_nodes(
    block: &mut BlockState,
    partition: &PartitionInfo,
    bpb: &BpbLayout,
    nodes: &mut Vec<FatNode>,
    parent_index: usize,
    entries: &Vec<FatDirectoryEntry>,
    depth: usize,
) -> (ok: bool)
    requires
        old(block).wf(),
        old(block).initialized,
        partition.start_lba < 0x100_0000_0000_0000,
        bpb_usable(*bpb),
        depth <= MAX_DIRECTORY_RECURSION_DEPTH,
        tree_ok(old(nodes)@, old(block).images(), *partition, *bpb),
        parent_index < old(nodes)@.len(),
        old(nodes)@[parent_index as int].kind == FatNodeKind::Directory,
    ensures
        final(block).wf(),
        final(block).same_layout(old(block)),
        tree_ok(final(nodes)@, old(block).images(), *partition, *bpb),
        final(nodes)@.len() >= old(nodes)@.len(),
        forall|j: int| 0 <= j < old(nodes)@.len() ==> (#[trigger] final(nodes)@[j]).path == old(nodes)@[j].path
            && final(nodes)@[j].kind == old(nodes)@[j].kind,
        ok == tree_loadable(old(block).images(), *partition, *bpb, entries_view(entries@), depth as int),
    decreases MAX_DIRECTORY_RECURSION_DEPTH - depth,
{
    let ghost images = block.images();
    let mut i: usize = 0;
    let mut ok = true;
    while i < entries.len() && ok
        invariant
            i <= entries@.len(),
            block.wf(),
            block.same_layout(old(block)),
            block.initialized,
            images == old(block).images(),
            partition.start_lba < 0x100_0000_0000_0000,
            bpb_usable(*bpb),
            depth <= MAX_DIRECTORY_RECURSION_DEPTH,
            tree_ok(nodes@, images, *partition, *bpb),
            parent_index < nodes@.len(),
            parent_index < old(nodes)@.len(),
            old(nodes)@[parent_index as int].kind == FatNodeKind::Directory,
            nodes@.len() >= old(nodes)@.len(),
            forall|j: int| 0 <= j < old(nodes)@.len() ==> (#[trigger] nodes@[j]).path == old(nodes)@[j].path
                && nodes@[j].kind == old(nodes)@[j].kind,
            ok ==> tree_loadable(images, *partition, *bpb, entries_view(entries@).take(i as int), depth as int),
            !ok ==> !tree_loadable(images, *partition, *bpb, entries_view(entries@), depth as int),
        decreases entries@.len() - i, if ok { 1int } else { 0int },
    {
        let ghost es = entries_view(entries@);
        proof {
            assert(es.take(i + 1).drop_last() =~= es.take(i as int));
            assert(es.take(i + 1).last() == entries@[i as int].view());
        }
        proof {
            assert(block.images() =~= images);
        }
        let entry = &entries[i];
        assert(nodes@[parent_index as int].kind == FatNodeKind::Directory);
        let parent_path = copy_chars(nodes[parent_index].path.as_slice());
        let child_path = join_fat_path(parent_path.as_slice(), entry.name.as_slice());
        let child_index = nodes.len();
        match entry.kind {
            FatNodeKind::Directory => {
                let node = FatNode {
                    path: child_path,
                    name: copy_chars(entry.name.as_slice()),
                    kind: FatNodeKind::Directory,
                    size: 0,
                    content: Vec::new(),
                    children: Vec::new(),
                    cluster: Ghost(entry.first_cluster),
                };
                let ghost before = nodes@;
                nodes.push(node);
                let _new_len = nodes.len();
                nodes[parent_index].children.push(child_index);
                proof {
                    lemma_tree_push_child(before, nodes@, images, *partition, *bpb, parent_index as int, node);
                }
                if depth < MAX_DIRECTORY_RECURSION_DEPTH {
                    match read_subdirectory_entries(block, partition, bpb, entry.first_cluster) {
                        Some(children) => {
                            proof {
                                assert(block.images() =~= images);
                            }
                            if !populate_directory_nodes(block, partition, bpb, nodes, child_index, &children, depth + 1) {
                                ok = false;
                            }
                        },
                        None => {
                            ok = false;
                        },
                    }
                }
                if ok {
                    let listing_text = render_directory_listing(nodes, child_index);
                    let size = utf8_text_len(&listing_text);
                    let ghost before2 = nodes@;
                    nodes[child_index].size = size;
                    proof {
                        lemma_tree_set_dir_size(before2, nodes@, images, *partition, *bpb, child_index as int);
                    }
                }
            },
            FatNodeKind::File => {
                match read_file_content(block, partition, bpb, entry.first_cluster, entry.size) {
                    Some(content) => {
                        let node = FatNode {
                            path: child_path,
                            name: copy_chars(entry.name.as_slice()),
                            kind: FatNodeKind::File,
                            size: entry.size,
                            content,
                            children: Vec::new(),
                            cluster: Ghost(entry.first_cluster),
                        };
                        let ghost before = nodes@;
                        nodes.push(node);
                        let _new_len = nodes.len();
                        nodes[parent_index].children.push(child_index);
                        proof {
                            lemma_tree_push_child(before, nodes@, images, *partition, *bpb, parent_index as int, node);
                        }
                    },
                    None => {
                        ok = false;
                    },
                }
            },
        }
        proof {
            if !ok {
                if tree_loadable(images, *partition, *bpb, es, depth as int) {
                    lemma_loadable_prefix(images, *partition, *bpb, es, depth as int, i + 1);
                }
            }
        }
        i = i + 1;
    }
    proof {
        if ok {
            assert(entries_view(entries@).take(i as int) =~= entries_view(entries@));
        }
    }
    if ok {
        let listing_text = render_directory_listing(nodes, parent_index);
        let size = utf8_text_len(&listing_text);
        let ghost before3 = nodes@;
        nodes[parent_index].size = size;
        proof {
            lemma_tree_set_dir_size(before3, nodes@, images, *partition, *bpb, parent_index as int);
        }
    }
    ok
}


#[derive(Copy, Clone, Debug)]
pub struct FatSummary {
    pub mounted: bool,
    pub partition_id: Option<u16>,
    pub device_id: Option<u16>,
    pub partition_table: Option<crate::block::PartitionTableKind>,
    pub fat_type: Option<FatType>,
    pub root_entry_count: usize,
    pub directory_count: usize,
    pub file_count: usize,
}

impl FatSummary {
    /// The summary reported while nothing is mounted.
    pub fn offline() -> (s: Self)
        ensures
            !s.mounted,
            s.partition_id is None && s.device_id is None && s.partition_table is None && s.fat_type is None,
            s.root_entry_count == 0 && s.directory_count == 0 && s.file_count == 0,
    {
        FatSummary {
            mounted: false,
            partition_id: None,
            device_id: None,
            partition_table: None,
            fat_type: None,
            root_entry_count: 0,
            directory_count: 0,
            file_count: 0,
        }
    }
}

/// Number of nodes of the given kind.
pub open spec fn count_kind(nodes: Seq<FatNode>, kind: FatNodeKind) -> int
    decreases nodes.len(),
{
    if nodes.len() == 0 {
        0
    } else {
        count_kind(nodes.drop_last(), kind) + if nodes.last().kind == kind { 1int } else { 0int }
    }
}

fn count_nodes(nodes: &Vec<FatNode>, kind: FatNodeKind) -> (n: usize)
    ensures
        n as int == count_kind(nodes@, kind),
{
    let mut n: usize = 0;
    let mut i: usize = 0;
    while i < nodes.len()
        invariant
            i <= nodes@.len(),
            n as int == count_kind(nodes@.subrange(0, i as int), kind),
            n <= i,
        decreases nodes@.len() - i,
    {
        assert(nodes@.subrange(0, i as int + 1).drop_last() =~= nodes@.subrange(0, i as int));
        if nodes[i].kind == kind {
            n = n + 1;
        }
        i = i + 1;
    }
    assert(nodes@.subrange(0, nodes@.len() as int) =~= nodes@);
    n
}

/// A mounted volume: the partition it lives on, its geometry and its node tree.
pub struct FatState {
    pub summary: FatSummary,
    pub partition: PartitionInfo,
    pub bpb: BpbLayout,
    pub nodes: Vec<FatNode>,
}

/// Whether the partition mounts: its boot sector can be read, carries the boot signature
/// and a BPB this reader takes, and its root directory loads in full.
pub open spec fn fat_mountable(images: Seq<Seq<u8>>, partition: PartitionInfo) -> bool {
    match image_sector(images, partition.device_id as int, partition.start_lba as int) {
        Some(sec) => sec[510] == 0x55 && sec[511] == 0xAA && bpb_valid(sec) && match root_entries(
            images,
            partition,
            bpb_of(sec),
        ) {
            Some(es) => tree_loadable(images, partition, bpb_of(sec), es, 0),
            None => false,
        },
        None => false,
    }
}

/// Mounts the FAT volume of a partition, if it holds one: checks the boot
/// signature and BPB, then reads the whole directory tree and all file contents.
pub fn try_mount_partition(block: &mut BlockState, partition: PartitionInfo) -> (r: Option<FatState>)
    requires
        old(block).wf(),
        old(block).initialized,
        partition.start_lba < 0x100_0000_0000_0000,
    ensures
        final(block).wf(),
        final(block).same_layout(old(block)),
        ({
            let boot = image_sector(old(block).images(), partition.device_id as int, partition.start_lba as int);
            &&& boot is None ==> r is None
            &&& (boot matches Some(sec) && (sec[510] != 0x55 || sec[511] != 0xAA || !bpb_valid(sec))) ==> r is None
            &&& (boot matches Some(sec) && root_entries(old(block).images(), partition, bpb_of(sec)) is None) ==> r is None
            &&& r is Some <==> fat_mountable(old(block).images(), partition)
            &&& r matches Some(state) ==> {
                &&& boot matches Some(sec) && sec[510] == 0x55 && sec[511] == 0xAA && bpb_valid(sec)
                    && state.bpb == bpb_of(sec)
                &&& root_entries(old(block).images(), partition, state.bpb) matches Some(es)
                    && state.summary.root_entry_count == es.len()
                &&& state.partition == partition
                &&& tree_ok(state.nodes@, old(block).images(), partition, state.bpb)
                &&& state.summary.mounted
                &&& state.summary.partition_id == Some(partition.id)
                &&& state.summary.device_id == Some(partition.device_id)
                &&& state.summary.partition_table == Some(partition.table_kind)
                &&& state.summary.fat_type == Some(state.bpb.fat_type)
                &&& state.summary.directory_count == count_kind(state.nodes@, FatNodeKind::Directory)
                &&& state.summary.file_count == count_kind(state.nodes@, FatNodeKind::File)
            }
        }),
{
    let ghost images = block.images();
    let sector = match block.read_sector(partition.device_id, partition.start_lba) {
        Some(s) => s,
        None => {
            return None;
        },
    };
    if sector[510] != 0x55 || sector[511] != 0xAA {
        return None;
    }
    let bpb = match parse_bpb(sector.as_slice()) {
        Some(b) => b,
        None => {
            return None;
        },
    };
    proof {
        assert(block.images() =~= images);
    }
    let root_entries_v = match read_root_directory_entries(block, &partition, &bpb) {
        Some(e) => e,
        None => {
            return None;
        },
    };
    let root_entry_count = root_entries_v.len();
    let mut nodes: Vec<FatNode> = Vec::new();
    let mut root_name: Vec<char> = Vec::new();
    root_name.push('f');
    root_name.push('a');
    root_name.push('t');
    nodes.push(FatNode {
        path: fat_root_vec(),
        name: root_name,
        kind: FatNodeKind::Directory,
        size: 0,
        content: Vec::new(),
        children: Vec::new(),
        cluster: Ghost(bpb.root_dir_first_cluster),
    });
    proof {
        assert(block.images() =~= images);
        assert forall|j: int| 0 < j < nodes@.len() implies #[trigger] has_parent(nodes@, j) by {}
    }
    if !populate_directory_nodes(block, &partition, &bpb, &mut nodes, 0, &root_entries_v, 0) {
        return None;
    }
    let directory_count = count_nodes(&nodes, FatNodeKind::Directory);
    let file_count = count_nodes(&nodes, FatNodeKind::File);
    Some(FatState {
        summary: FatSummary {
            mounted: true,
            partition_id: Some(partition.id),
            device_id: Some(partition.device_id),
            partition_table: Some(partition.table_kind),
            fat_type: Some(bpb.fat_type),
            root_entry_count,
            directory_count,
            file_count,
        },
        partition,
        bpb,
        nodes,
    })
}


/// Whether two character sequences are equal.
pub fn chars_eq(a: &[char], b: &[char]) -> (r: bool)
    ensures
        r == (a@ == b@),
{
    if a.len() != b.len() {
        return false;
    }
    let mut i: usize = 0;
    while i < a.len()
        invariant
            i <= a@.len(),
            a@.len() == b@.len(),
            forall|k: int| 0 <= k < i ==> a@[k] == b@[k],
        decreases a@.len() - i,
    {
        if a[i] != b[i] {
            return false;
        }
        i = i + 1;
    }
    assert(a@ =~= b@);
    true
}

/// What reading a node yields: a directory's listing, or a file's bytes.
pub enum FatContent {
    Listing(Vec<char>),
    Bytes(Vec<u8>),
}

/// Index of the first node at or after `i` whose path is `n`.
pub open spec fn first_with_path(nodes: Seq<FatNode>, n: Seq<char>, i: int) -> Option<int>
    decreases nodes.len() - i,
{
    if i < 0 || i >= nodes.len() {
        None
    } else if nodes[i].path@ == n {
        Some(i)
    } else {
        first_with_path(nodes, n, i + 1)
    }
}

impl FatState {
    /// The node `path` names: the first whose path is its normalized form.
    pub open spec fn find_node_spec(&self, path: Seq<char>) -> Option<int> {
        match normalized_fat_path(path) {
            None => None,
            Some(n) => first_with_path(self.nodes@, n, 0),
        }
    }

    /// Finds the node that `path` names.
    pub fn find_node(&self, path: &[char]) -> (r: Option<usize>)
        ensures
            match r {
                Some(i) => self.find_node_spec(path@) == Some(i as int) && i < self.nodes@.len(),
                None => self.find_node_spec(path@) is None,
            },
    {
        let normalized = match normalize_fat_path(path) {
            Some(n) => n,
            None => {
                return None;
            },
        };
        assert(self.find_node_spec(path@) == first_with_path(self.nodes@, normalized@, 0));
        let mut i: usize = 0;
        while i < self.nodes.len()
            invariant
                i <= self.nodes@.len(),
                self.find_node_spec(path@) == first_with_path(self.nodes@, normalized@, 0),
                first_with_path(self.nodes@, normalized@, 0) == first_with_path(self.nodes@, normalized@, i as int),
            decreases self.nodes@.len() - i,
        {
            if chars_eq(self.nodes[i].path.as_slice(), normalized.as_slice()) {
                return Some(i);
            }
            i = i + 1;
        }
        None
    }

    /// The kind of the node at `path`.
    pub fn node_kind(&self, path: &[char]) -> (r: Option<FatNodeKind>)
        ensures
            match self.find_node_spec(path@) {
                Some(i) => r == Some(self.nodes@[i].kind),
                None => r is None,
            },
    {
        match self.find_node(path) {
            Some(i) => Some(self.nodes[i].kind),
            None => None,
        }
    }

    /// The kind and size of the node at `path`.
    pub fn node_info(&self, path: &[char]) -> (r: Option<FatNodeInfo>)
        ensures
            match self.find_node_spec(path@) {
                Some(i) => r matches Some(info) && info.kind == self.nodes@[i].kind && info.size == self.nodes@[i].size,
                None => r is None,
            },
    {
        match self.find_node(path) {
            Some(i) => Some(FatNodeInfo { kind: self.nodes[i].kind, size: self.nodes[i].size }),
            None => None,
        }
    }

    /// Reads the node at `path`: a directory's listing or a file's contents.
    pub fn read(&self, path: &[char]) -> (r: Option<FatContent>)
        ensures
            match self.find_node_spec(path@) {
                Some(i) => match r {
                    Some(FatContent::Listing(t)) => self.nodes@[i].kind == FatNodeKind::Directory
                        && t@ == listing(self.nodes@, self.nodes@[i].children@),
                    Some(FatContent::Bytes(b)) => self.nodes@[i].kind == FatNodeKind::File
                        && b@ == self.nodes@[i].content@,
                    None => false,
                },
                None => r is None,
            },
    {
        match self.find_node(path) {
            Some(i) => match self.nodes[i].kind {
                FatNodeKind::Directory => Some(FatContent::Listing(render_directory_listing(&self.nodes, i))),
                FatNodeKind::File => {
                    let content = &self.nodes[i].content;
                    let mut bytes: Vec<u8> = Vec::new();
                    append_bytes(&mut bytes, content.as_slice());
                    Some(FatContent::Bytes(bytes))
                },
            },
            None => None,
        }
    }

    /// Path of the first file directly under `/fat`.
    pub fn first_root_file_path(&self) -> (r: Option<Vec<char>>)
        ensures
            match r {
                Some(p) => exists|i: int| 0 <= i < self.nodes@.len() && (#[trigger] self.nodes@[i]).kind
                    == FatNodeKind::File && fat_depth(self.nodes@[i].path@) == 1 && p@ == self.nodes@[i].path@
                    && forall|j: int| 0 <= j < i ==> !((#[trigger] self.nodes@[j]).kind == FatNodeKind::File
                    && fat_depth(self.nodes@[j].path@) == 1),
                None => forall|j: int| 0 <= j < self.nodes@.len() ==> !((#[trigger] self.nodes@[j]).kind
                    == FatNodeKind::File && fat_depth(self.nodes@[j].path@) == 1),
            },
    {
        let mut i: usize = 0;
        while i < self.nodes.len()
            invariant
                i <= self.nodes@.len(),
                forall|j: int| 0 <= j < i ==> !((#[trigger] self.nodes@[j]).kind == FatNodeKind::File
                    && fat_depth(self.nodes@[j].path@) == 1),
            decreases self.nodes@.len() - i,
        {
            if self.nodes[i].kind == FatNodeKind::File && fat_path_depth(self.nodes[i].path.as_slice()) == 1 {
                return Some(copy_chars(self.nodes[i].path.as_slice()));
            }
            i = i + 1;
        }
        None
    }

    /// Path of the first file at least two levels below `/fat`.
    pub fn first_nested_file_path(&self) -> (r: Option<Vec<char>>)
        ensures
            match r {
                Some(p) => exists|i: int| 0 <= i < self.nodes@.len() && (#[trigger] self.nodes@[i]).kind
                    == FatNodeKind::File && fat_depth(self.nodes@[i].path@) >= 2 && p@ == self.nodes@[i].path@
                    && forall|j: int| 0 <= j < i ==> !((#[trigger] self.nodes@[j]).kind == FatNodeKind::File
                    && fat_depth(self.nodes@[j].path@) >= 2),
                None => forall|j: int| 0 <= j < self.nodes@.len() ==> !((#[trigger] self.nodes@[j]).kind
                    == FatNodeKind::File && fat_depth(self.nodes@[j].path@) >= 2),
            },
    {
        let mut i: usize = 0;
        while i < self.nodes.len()
            invariant
                i <= self.nodes@.len(),
                forall|j: int| 0 <= j < i ==> !((#[trigger] self.nodes@[j]).kind == FatNodeKind::File
                    && fat_depth(self.nodes@[j].path@) >= 2),
            decreases self.nodes@.len() - i,
        {
            if self.nodes[i].kind == FatNodeKind::File && fat_path_depth(self.nodes[i].path.as_slice()) >= 2 {
                return Some(copy_chars(self.nodes[i].path.as_slice()));
            }
            i = i + 1;
        }
        None
    }
}

/// The mounted FAT volume, once `initialize` found one.
pub struct FatRuntime {
    pub state: Option<FatState>,
}

impl FatRuntime {
    pub fn new() -> (r: Self)
        ensures
            r.state is None,
    {
        FatRuntime { state: None }
    }

    pub fn is_initialized(&self) -> (b: bool)
        ensures
            b == self.state is Some,
    {
        self.state.is_some()
    }

    /// The summary of the mounted volume, or the offline summary.
    pub fn summary(&self) -> (s: FatSummary)
        ensures
            match self.state {
                Some(st) => s == st.summary,
                None => !s.mounted && s.root_entry_count == 0 && s.directory_count == 0 && s.file_count == 0
                    && s.partition_id is None && s.device_id is None && s.partition_table is None && s.fat_type is None,
            },
    {
        match &self.state {
            Some(st) => st.summary,
            None => FatSummary::offline(),
        }
    }

    /// Mounts the first partition, in table order, that holds a FAT16/32 volume.
    pub fn initialize(&mut self, block: &mut BlockState) -> (r: Result<FatSummary, FatError>)
        requires
            old(block).wf(),
        ensures
            final(block).wf(),
            final(block).same_layout(old(block)),
            old(self).state is Some ==> r == Err::<FatSummary, FatError>(FatError::AlreadyInitialized)
                && final(self).state == old(self).state,
            old(self).state is None && !old(block).initialized ==> r == Err::<FatSummary, FatError>(
                FatError::BlockUnavailable,
            ) && final(self).state is None,
            old(self).state is None && old(block).initialized ==> match r {
                Ok(s) => final(self).state matches Some(st) && st.summary == s && s.mounted
                    && exists|i: int| 0 <= i < old(block).partitions@.len() && st.partition
                    == old(block).partitions@[i],
                Err(e) => e == FatError::NoFatPartition && final(self).state is None,
            },
    {
        if self.state.is_some() {
            return Err(FatError::AlreadyInitialized);
        }
        if !block.is_initialized() {
            return Err(FatError::BlockUnavailable);
        }
        let mut index: usize = 0;
        let mut found: Option<FatState> = None;
        while index < block.partition_count() && found.is_none()
            invariant
                block.wf(),
                block.same_layout(old(block)),
                block.initialized,
                found matches Some(st) ==> st.summary.mounted && exists|i: int| 0 <= i < old(block).partitions@.len()
                    && st.partition == old(block).partitions@[i],
            decreases old(block).partitions@.len() - index, if found is None { 1int } else { 0int },
        {
            let partition = block.partition(index).unwrap();
            assert(block.partitions@[index as int].start_lba < 0x100_0000_0000_0000);
            found = try_mount_partition(block, partition);
            index = index + 1;
        }
        match found {
            Some(st) => {
                let summary = st.summary;
                self.state = Some(st);
                Ok(summary)
            },
            None => Err(FatError::NoFatPartition),
        }
    }
}

} // verus!
