//! Sector-addressed block devices backed by in-memory images, and the MBR and
//! GPT partition discovery that runs over them.
use vstd::prelude::*;
use crate::bytes::{le_u32, le_u64, read_u32_le, read_u64_le};

verus! {

pub const SECTOR_BYTES: usize = 512;
pub const MAX_BLOCK_DEVICES: usize = 8;
pub const MAX_PARTITIONS: usize = 32;
pub const MBR_SIGNATURE_OFFSET: usize = 510;
pub const MBR_PARTITION_TABLE_OFFSET: usize = 446;
pub const MBR_PARTITION_ENTRY_BYTES: usize = 16;
pub const MBR_PARTITION_ENTRY_COUNT: usize = 4;
pub const GPT_HEADER_LBA: u64 = 1;
pub const GPT_MIN_HEADER_BYTES: usize = 92;
pub const GPT_PARTITION_ENTRY_MIN_BYTES: usize = 128;

#[derive(Copy, Clone, Debug, PartialEq, Eq, Structural)]
pub enum BlockDeviceKind {
    InitrdArchive,
}

impl BlockDeviceKind {
    pub fn as_str(self) -> (s: &'static str)
        ensures
            s@ == "initrd-archive"@,
    {
        match self {
            BlockDeviceKind::InitrdArchive => "initrd-archive",
        }
    }
}

#[derive(Copy, Clone, Debug, PartialEq, Eq, Structural)]
pub enum PartitionTableKind {
    Mbr,
    Gpt,
}

impl PartitionTableKind {
    pub fn as_str(self) -> (s: &'static str)
        ensures
            self == PartitionTableKind::Mbr ==> s@ == "mbr"@,
            self == PartitionTableKind::Gpt ==> s@ == "gpt"@,
    {
        match self {
            PartitionTableKind::Mbr => "mbr",
            PartitionTableKind::Gpt => "gpt",
        }
    }
}

#[derive(Copy, Clone, Debug)]
pub struct BlockDeviceInfo {
    pub id: u16,
    pub kind: BlockDeviceKind,
    pub name: &'static str,
    pub read_only: bool,
    pub sector_size: usize,
    pub sector_count: u64,
    pub size_bytes: u64,
}

#[derive(Copy, Clone, Debug)]
pub struct PartitionInfo {
    pub id: u16,
    pub device_id: u16,
    pub table_kind: PartitionTableKind,
    pub mbr_index: u8,
    pub partition_type: u8,
    pub gpt_index: u32,
    pub gpt_type_guid: [u8; 16],
    pub gpt_partition_guid: [u8; 16],
    pub bootable: bool,
    pub start_lba: u64,
    pub sector_count: u64,
}

#[derive(Copy, Clone, Debug)]
pub struct BlockSummary {
    pub device_count: usize,
    pub partition_count: usize,
    pub total_bytes: u64,
    pub mbr_device_count: u64,
    pub gpt_device_count: u64,
}

#[derive(Copy, Clone, Debug, PartialEq, Eq, Structural)]
pub enum BlockInitError {
    AlreadyInitialized,
}

impl BlockInitError {
    pub fn as_str(self) -> (s: &'static str)
        ensures
            s@ == "block layer is already initialized"@,
    {
        match self {
            BlockInitError::AlreadyInitialized => "block layer is already initialized",
        }
    }
}

#[derive(Copy, Clone, Debug, PartialEq, Eq, Structural)]
pub enum BlockReadError {
    NotInitialized,
    DeviceNotFound,
    InvalidBufferLength,
    SectorCountOverflow,
    OutOfRange,
}

impl BlockReadError {
    pub fn as_str(self) -> (s: &'static str)
        ensures
            self == BlockReadError::NotInitialized ==> s@ == "block layer is not initialized"@,
            self == BlockReadError::DeviceNotFound ==> s@ == "block device is not found"@,
            self == BlockReadError::InvalidBufferLength
                ==> s@ == "output buffer length does not match sector request"@,
            self == BlockReadError::SectorCountOverflow ==> s@ == "sector count multiplication overflow"@,
            self == BlockReadError::OutOfRange ==> s@ == "block read is out of range"@,
    {
        match self {
            BlockReadError::NotInitialized => "block layer is not initialized",
            BlockReadError::DeviceNotFound => "block device is not found",
            BlockReadError::InvalidBufferLength => "output buffer length does not match sector request",
            BlockReadError::SectorCountOverflow => "sector count multiplication overflow",
            BlockReadError::OutOfRange => "block read is out of range",
        }
    }
}

#[derive(Copy, Clone, Debug)]
pub struct BlockStats {
    pub read_requests: u64,
    pub read_sectors: u64,
    pub read_bytes: u64,
    pub read_failures: u64,
}

impl BlockStats {
    pub fn new() -> (s: Self)
        ensures
            s.read_requests == 0,
            s.read_sectors == 0,
            s.read_bytes == 0,
            s.read_failures == 0,
    {
        BlockStats { read_requests: 0, read_sectors: 0, read_bytes: 0, read_failures: 0 }
    }
}

/// A registered device: its description and the bytes of its image.
pub struct BlockDeviceSlot {
    pub info: BlockDeviceInfo,
    pub bytes: Vec<u8>,
}

/// Byte `pos` of a device image, reading zero past its end.
pub open spec fn device_byte(bytes: Seq<u8>, pos: int) -> u8 {
    if 0 <= pos < bytes.len() { bytes[pos] } else { 0 }
}

/// Number of 512-byte sectors an image of `len` bytes spans.
pub open spec fn sectors_for(len: int) -> int {
    (len + 511) / 512
}

/// How many of the `count` sectors starting at `lba` lie inside an image of `len` bytes
/// (reading stops at the first sector that does not).
pub open spec fn readable_sectors(len: int, lba: int, count: int) -> int {
    let n = sectors_for(len);
    if lba + count <= n { count } else if lba < n { n - lba } else { 0 }
}

/// `old` with its first `upto` sectors replaced by the image sectors starting at `lba`.
pub open spec fn read_image(bytes: Seq<u8>, lba: int, upto: int, old: Seq<u8>) -> Seq<u8> {
    read_prefix(bytes, lba, upto * 512, old)
}

/// `old` with its first `upto_bytes` bytes replaced by image bytes starting at sector `lba`.
pub open spec fn read_prefix(bytes: Seq<u8>, lba: int, upto_bytes: int, old: Seq<u8>) -> Seq<u8> {
    Seq::new(old.len(), |i: int| if i < upto_bytes { device_byte(bytes, lba * 512 + i) } else { old[i] })
}

/// Sector `sector` starts inside an image of `len` bytes.
pub open spec fn starts_inside(len: int, sector: int) -> bool {
    sector * 512 < len
}

/// Reading `count` sectors from sector `lba` of an image of `len` bytes takes the sectors
/// in order while each one starts inside the image: every sector taken starts inside it,
/// and when fewer than `count` were taken, the next one starts at or past its end. The
/// bytes read are the image bytes from `lba * 512` on; the rest of the buffer keeps what it
/// held.
pub proof fn lemma_read_takes_sectors_inside(img: Seq<u8>, lba: int, count: int, old: Seq<u8>)
    requires
        0 <= lba,
        0 <= count,
        count * 512 <= old.len(),
    ensures
        ({
            let n = readable_sectors(img.len() as int, lba, count);
            let out = read_image(img, lba, n, old);
            &&& 0 <= n <= count
            &&& forall|t: int| lba <= t < lba + n ==> #[trigger] starts_inside(img.len() as int, t)
            &&& n < count ==> !starts_inside(img.len() as int, lba + n)
            &&& out.len() == old.len()
            &&& forall|j: int| 0 <= j < n * 512 && lba * 512 + j < img.len() ==> #[trigger] out[j] == img[lba * 512 + j]
            &&& forall|j: int| n * 512 <= j < old.len() ==> #[trigger] out[j] == old[j]
        }),
{
    let len = img.len() as int;
    let n = readable_sectors(len, lba, count);
    assert forall|t: int| lba <= t < lba + n implies #[trigger] starts_inside(len, t) by {
        lemma_sector_inside(len, t);
    }
    if n < count {
        lemma_sector_inside(len, lba + n);
    }
    assert(0 <= n * 512 <= count * 512) by (nonlinear_arith)
        requires
            0 <= n <= count,
    ;
}

pub struct BlockState {
    pub initialized: bool,
    pub total_bytes: u64,
    pub mbr_device_count: u64,
    pub gpt_device_count: u64,
    pub devices: Vec<BlockDeviceSlot>,
    pub partitions: Vec<PartitionInfo>,
    pub stats: BlockStats,
}

/// `a + b`, saturating at `u64::MAX`.
pub open spec fn sat_add_u64(a: u64, b: int) -> u64 {
    if a + b > u64::MAX { u64::MAX } else { (a + b) as u64 }
}

/// A sector starts inside an image exactly when its index is below the image's sector count.
pub proof fn lemma_sector_inside(len: int, sector: int)
    requires
        0 <= len,
        0 <= sector,
    ensures
        (sector * 512 < len) == (sector < sectors_for(len)),
{
    assert((sector * 512 < len) == (sector < (len + 511) / 512)) by (nonlinear_arith)
        requires
            0 <= len,
            0 <= sector,
    ;
}

impl BlockState {
    /// Devices occupy ids `0..device_count` in order, and each description matches its image.
    pub open spec fn wf(&self) -> bool {
        &&& self.devices@.len() <= MAX_BLOCK_DEVICES
        &&& self.partitions@.len() <= MAX_PARTITIONS
        &&& forall|i: int| 0 <= i < self.partitions@.len() ==> (#[trigger] self.partitions@[i]).start_lba
            < 0x100_0000_0000_0000
        &&& forall|i: int| 0 <= i < self.devices@.len() ==> {
            let d = #[trigger] self.devices@[i];
            &&& d.info.id == i
            &&& d.info.size_bytes == d.bytes@.len()
            &&& d.info.sector_count == sectors_for(d.bytes@.len() as int)
            &&& d.info.sector_size == SECTOR_BYTES
        }
    }

    /// The images of the registered devices.
    pub open spec fn images(&self) -> Seq<Seq<u8>> {
        Seq::new(self.devices@.len(), |i: int| self.devices@[i].bytes@)
    }

    pub fn new() -> (s: Self)
        ensures
            s.wf(),
            !s.initialized,
            s.devices@.len() == 0,
            s.partitions@.len() == 0,
            s.total_bytes == 0,
            s.mbr_device_count == 0,
            s.gpt_device_count == 0,
            s.stats.read_requests == 0 && s.stats.read_sectors == 0,
            s.stats.read_bytes == 0 && s.stats.read_failures == 0,
    {
        BlockState {
            initialized: false,
            total_bytes: 0,
            mbr_device_count: 0,
            gpt_device_count: 0,
            devices: Vec::new(),
            partitions: Vec::new(),
            stats: BlockStats::new(),
        }
    }

    pub fn summary(&self) -> (s: BlockSummary)
        ensures
            s.device_count == self.devices@.len(),
            s.partition_count == self.partitions@.len(),
            s.total_bytes == self.total_bytes,
            s.mbr_device_count == self.mbr_device_count,
            s.gpt_device_count == self.gpt_device_count,
    {
        BlockSummary {
            device_count: self.devices.len(),
            partition_count: self.partitions.len(),
            total_bytes: self.total_bytes,
            mbr_device_count: self.mbr_device_count,
            gpt_device_count: self.gpt_device_count,
        }
    }

    pub fn stats(&self) -> (s: BlockStats)
        ensures
            s == self.stats,
    {
        self.stats
    }

    pub fn is_initialized(&self) -> (b: bool)
        ensures
            b == self.initialized,
    {
        self.initialized
    }

    pub fn device_count(&self) -> (n: usize)
        ensures
            n == self.devices@.len(),
    {
        self.devices.len()
    }

    pub fn partition_count(&self) -> (n: usize)
        ensures
            n == self.partitions@.len(),
    {
        self.partitions.len()
    }

    pub fn device(&self, index: usize) -> (r: Option<BlockDeviceInfo>)
        ensures
            r == (if index < self.devices@.len() { Some(self.devices@[index as int].info) } else { None }),
    {
        if index >= self.devices.len() {
            return None;
        }
        Some(self.devices[index].info)
    }

    pub fn partition(&self, index: usize) -> (r: Option<PartitionInfo>)
        ensures
            r == (if index < self.partitions@.len() { Some(self.partitions@[index as int]) } else { None }),
    {
        if index >= self.partitions.len() {
            return None;
        }
        Some(self.partitions[index])
    }

    /// Finds the slot of the device with the given id.
    pub fn find_device_slot(&self, device_id: u16) -> (r: Option<usize>)
        requires
            self.wf(),
        ensures
            r == (if (device_id as int) < self.devices@.len() { Some(device_id as usize) } else { None }),
    {
        let mut index: usize = 0;
        while index < self.devices.len()
            invariant
                self.wf(),
                index <= self.devices@.len(),
                (device_id as int) >= index,
            decreases self.devices@.len() - index,
        {
            if self.devices[index].info.id == device_id {
                return Some(index);
            }
            index = index + 1;
        }
        None
    }

    /// Registers a device image, ignored once `MAX_BLOCK_DEVICES` are present.
    pub fn register_device(&mut self, kind: BlockDeviceKind, name: &'static str, read_only: bool, bytes: Vec<u8>)
        requires
            old(self).wf(),
        ensures
            final(self).wf(),
            final(self).partitions == old(self).partitions,
            final(self).initialized == old(self).initialized,
            final(self).stats == old(self).stats,
            final(self).mbr_device_count == old(self).mbr_device_count,
            final(self).gpt_device_count == old(self).gpt_device_count,
            old(self).devices@.len() >= MAX_BLOCK_DEVICES ==> final(self).images() == old(self).images()
                && final(self).total_bytes == old(self).total_bytes,
            old(self).devices@.len() < MAX_BLOCK_DEVICES ==> {
                &&& final(self).images() == old(self).images().push(bytes@)
                &&& final(self).devices@.last().info.kind == kind
                &&& final(self).devices@.last().info.name == name
                &&& final(self).devices@.last().info.read_only == read_only
                &&& final(self).total_bytes == if old(self).total_bytes + bytes@.len() > u64::MAX {
                    u64::MAX as int
                } else {
                    old(self).total_bytes + bytes@.len()
                }
            },
    {
        if self.devices.len() >= MAX_BLOCK_DEVICES {
            return;
        }
        let id = self.devices.len() as u16;
        let size_bytes = bytes.len() as u64;
        let sector_count = size_bytes / 512 + if size_bytes % 512 != 0 { 1 } else { 0 };
        let info = BlockDeviceInfo {
            id,
            kind,
            name,
            read_only,
            sector_size: SECTOR_BYTES,
            sector_count,
            size_bytes,
        };
        self.devices.push(BlockDeviceSlot { info, bytes });
        self.total_bytes = self.total_bytes.saturating_add(size_bytes);
        assert(self.images() =~= old(self).images().push(self.devices@.last().bytes@));
    }

    /// Appends a partition, ignored once `MAX_PARTITIONS` are present.
    pub fn register_partition(&mut self, info: PartitionInfo)
        requires
            old(self).wf(),
            info.start_lba < 0x100_0000_0000_0000,
        ensures
            final(self).wf(),
            final(self).devices == old(self).devices,
            final(self).initialized == old(self).initialized,
            final(self).stats == old(self).stats,
            final(self).total_bytes == old(self).total_bytes,
            final(self).mbr_device_count == old(self).mbr_device_count,
            final(self).gpt_device_count == old(self).gpt_device_count,
            final(self).partitions@ == if old(self).partitions@.len() < MAX_PARTITIONS {
                old(self).partitions@.push(info)
            } else {
                old(self).partitions@
            },
    {
        if self.partitions.len() >= MAX_PARTITIONS {
            return;
        }
        self.partitions.push(info);
    }

    /// Copies `sector_count` sectors starting at `lba` from a device into `out`,
    /// stopping with `OutOfRange` at the first sector that starts past the image.
    pub fn read_bytes_raw(&self, device_id: u16, lba: u64, sector_count: usize, out: &mut [u8]) -> (r: Result<(), BlockReadError>)
        requires
            self.wf(),
            sector_count * 512 <= old(out)@.len(),
        ensures
            (device_id as int) >= self.devices@.len() ==> r == Err::<(), BlockReadError>(BlockReadError::DeviceNotFound)
                && final(out)@ == old(out)@,
            (device_id as int) < self.devices@.len() ==> {
                let bytes = self.devices@[device_id as int].bytes@;
                let n = readable_sectors(bytes.len() as int, lba as int, sector_count as int);
                &&& final(out)@ == read_image(bytes, lba as int, n, old(out)@)
                &&& r == if n == sector_count { Ok::<(), BlockReadError>(()) } else { Err(BlockReadError::OutOfRange) }
            },
    {
        let slot_idx = match self.find_device_slot(device_id) {
            Some(i) => i,
            None => {
                return Err(BlockReadError::DeviceNotFound);
            },
        };
        let bytes = &self.devices[slot_idx].bytes;
        let ghost img = bytes@;
        let ghost n = readable_sectors(img.len() as int, lba as int, sector_count as int);
        let ghost start = out@;
        let blen = bytes.len();
        assert(out@ =~= read_image(img, lba as int, 0, start));
        let mut sector_index: usize = 0;
        let mut failed = false;
        while sector_index < sector_count && !failed
            invariant
                sector_index <= sector_count,
                sector_count * 512 <= out@.len(),
                out@.len() == start.len(),
                img == bytes@,
                blen == img.len(),
                n == readable_sectors(img.len() as int, lba as int, sector_count as int),
                sector_index <= n,
                failed ==> sector_index == n && n < sector_count,
                out@ == read_image(img, lba as int, sector_index as int, start),
            decreases sector_count - sector_index, if failed { 0int } else { 1int },
        {
            proof {
                lemma_sector_inside(img.len() as int, lba as int + sector_index as int);
            }
            let sector_lba = lba.checked_add(sector_index as u64);
            let byte_offset = match sector_lba {
                Some(v) => v.checked_mul(512),
                None => None,
            };
            match byte_offset {
                Some(byte_offset) if byte_offset < blen as u64 => {
                    let byte_offset = byte_offset as usize;
                    let out_offset = sector_index * 512;
                    assert(out@ =~= read_prefix(img, lba as int, out_offset + 0, start));
                    let mut j: usize = 0;
                    while j < 512
                        invariant
                            j <= 512,
                            out_offset == sector_index * 512,
                            sector_index < sector_count,
                            sector_count * 512 <= out@.len(),
                            out@.len() == start.len(),
                            img == bytes@,
                            blen == img.len(),
                            byte_offset as int == (lba as int + sector_index as int) * 512,
                            byte_offset < img.len(),
                            out@ == read_prefix(img, lba as int, out_offset + j, start),
                        decreases 512 - j,
                    {
                        let v = if j < blen - byte_offset { bytes[byte_offset + j] } else { 0 };
                        out[out_offset + j] = v;
                        j = j + 1;
                        assert(out@ =~= read_prefix(img, lba as int, out_offset + j, start));
                    }
                    sector_index = sector_index + 1;
                },
                _ => {
                    failed = true;
                },
            }
        }
        if failed {
            Err(BlockReadError::OutOfRange)
        } else {
            Ok(())
        }
    }

    /// Reads whole sectors from a device into `out`, whose length must be exactly
    /// `sector_count * SECTOR_BYTES`, and accounts the request in the statistics.
    pub fn read(&mut self, device_id: u16, lba: u64, sector_count: usize, out: &mut [u8]) -> (r: Result<(), BlockReadError>)
        requires
            old(self).wf(),
        ensures
            final(self).wf(),
            final(self).devices == old(self).devices,
            final(self).partitions == old(self).partitions,
            final(self).initialized == old(self).initialized,
            final(self).total_bytes == old(self).total_bytes,
            final(self).mbr_device_count == old(self).mbr_device_count,
            final(self).gpt_device_count == old(self).gpt_device_count,
            !old(self).initialized ==> r == Err::<(), BlockReadError>(BlockReadError::NotInitialized)
                && final(out)@ == old(out)@ && final(self).stats == old(self).stats,
            old(self).initialized && sector_count * 512 > usize::MAX ==> r == Err::<(), BlockReadError>(
                BlockReadError::SectorCountOverflow,
            ) && final(out)@ == old(out)@ && final(self).stats == old(self).stats,
            old(self).initialized && sector_count * 512 <= usize::MAX && old(out)@.len() != sector_count * 512
                ==> r == Err::<(), BlockReadError>(BlockReadError::InvalidBufferLength) && final(out)@ == old(out)@
                && final(self).stats == old(self).stats,
            old(self).initialized && sector_count * 512 <= usize::MAX && old(out)@.len() == sector_count * 512 ==> {
                &&& final(self).stats.read_requests == sat_add_u64(old(self).stats.read_requests, 1)
                &&& (device_id as int) >= old(self).devices@.len() ==> r == Err::<(), BlockReadError>(
                    BlockReadError::DeviceNotFound,
                ) && final(out)@ == old(out)@
                &&& (device_id as int) < old(self).devices@.len() ==> {
                    let bytes = old(self).devices@[device_id as int].bytes@;
                    let n = readable_sectors(bytes.len() as int, lba as int, sector_count as int);
                    &&& final(out)@ == read_image(bytes, lba as int, n, old(out)@)
                    &&& r == if n == sector_count { Ok::<(), BlockReadError>(()) } else { Err(BlockReadError::OutOfRange) }
                }
                &&& r is Ok ==> final(self).stats.read_sectors == sat_add_u64(old(self).stats.read_sectors, sector_count as int)
                    && final(self).stats.read_bytes == sat_add_u64(old(self).stats.read_bytes, sector_count * 512)
                    && final(self).stats.read_failures == old(self).stats.read_failures
                &&& r is Err ==> final(self).stats.read_sectors == old(self).stats.read_sectors
                    && final(self).stats.read_bytes == old(self).stats.read_bytes
                    && final(self).stats.read_failures == sat_add_u64(old(self).stats.read_failures, 1)
            },
    {
        if !self.initialized {
            return Err(BlockReadError::NotInitialized);
        }
        let expected_len = match sector_count.checked_mul(SECTOR_BYTES) {
            Some(v) => v,
            None => {
                return Err(BlockReadError::SectorCountOverflow);
            },
        };
        if out.len() != expected_len {
            return Err(BlockReadError::InvalidBufferLength);
        }
        self.stats.read_requests = self.stats.read_requests.saturating_add(1);
        let result = self.read_bytes_raw(device_id, lba, sector_count, out);
        match result {
            Ok(()) => {
                self.stats.read_sectors = self.stats.read_sectors.saturating_add(sector_count as u64);
                self.stats.read_bytes = self.stats.read_bytes.saturating_add(expected_len as u64);
                Ok(())
            },
            Err(error) => {
                self.stats.read_failures = self.stats.read_failures.saturating_add(1);
                Err(error)
            },
        }
    }
}



/// A partition table entry as the contracts see it, GUIDs as byte sequences.
pub ghost struct PartitionDesc {
    pub id: u16,
    pub device_id: u16,
    pub table_kind: PartitionTableKind,
    pub mbr_index: u8,
    pub partition_type: u8,
    pub gpt_index: u32,
    pub gpt_type_guid: Seq<u8>,
    pub gpt_partition_guid: Seq<u8>,
    pub bootable: bool,
    pub start_lba: u64,
    pub sector_count: u64,
}

impl PartitionInfo {
    pub open spec fn desc(self) -> PartitionDesc {
        PartitionDesc {
            id: self.id,
            device_id: self.device_id,
            table_kind: self.table_kind,
            mbr_index: self.mbr_index,
            partition_type: self.partition_type,
            gpt_index: self.gpt_index,
            gpt_type_guid: self.gpt_type_guid@,
            gpt_partition_guid: self.gpt_partition_guid@,
            bootable: self.bootable,
            start_lba: self.start_lba,
            sector_count: self.sector_count,
        }
    }
}

/// Appends `d` unless the partition table already holds `MAX_PARTITIONS` entries.
pub open spec fn append_capped(parts: Seq<PartitionDesc>, d: PartitionDesc) -> Seq<PartitionDesc> {
    if parts.len() < MAX_PARTITIONS { parts.push(d) } else { parts }
}

/// Sector `lba` of an image (zero-filled past its end).
pub open spec fn sector_at(img: Seq<u8>, lba: int) -> Seq<u8> {
    Seq::new(512, |j: int| device_byte(img, lba * 512 + j))
}

pub open spec fn zero_guid() -> Seq<u8> {
    Seq::new(16, |i: int| 0u8)
}

/// MBR entry `e` (0..4) describes a partition: non-zero type and sector count.
pub open spec fn mbr_entry_used(sector: Seq<u8>, e: int) -> bool {
    let base = 446 + e * 16;
    sector[base + 4] != 0 && le_u32(sector, base + 12) != 0
}

pub open spec fn mbr_entry_desc(device_id: u16, sector: Seq<u8>, e: int, id: int) -> PartitionDesc {
    let base = 446 + e * 16;
    PartitionDesc {
        id: id as u16,
        device_id,
        table_kind: PartitionTableKind::Mbr,
        mbr_index: (e + 1) as u8,
        partition_type: sector[base + 4],
        gpt_index: 0,
        gpt_type_guid: zero_guid(),
        gpt_partition_guid: zero_guid(),
        bootable: sector[base] == 0x80,
        start_lba: le_u32(sector, base + 8) as u64,
        sector_count: le_u32(sector, base + 12) as u64,
    }
}

/// The partition list after registering the used entries among the first `e` MBR entries.
pub open spec fn mbr_after(parts: Seq<PartitionDesc>, device_id: u16, sector: Seq<u8>, e: int) -> Seq<PartitionDesc>
    decreases e,
{
    if e <= 0 {
        parts
    } else {
        let p = mbr_after(parts, device_id, sector, e - 1);
        if mbr_entry_used(sector, e - 1) {
            append_capped(p, mbr_entry_desc(device_id, sector, e - 1, p.len() as int))
        } else {
            p
        }
    }
}

/// The 16 bytes of MBR partition entry `e`.
pub open spec fn mbr_entry_bytes(sector: Seq<u8>, e: int) -> Seq<u8> {
    sector.subrange(446 + 16 * e, 446 + 16 * e + 16)
}

/// Each partition the MBR scan adds describes the table entry it names. Entry `e`
/// (`mbr_index - 1`) is the 16 bytes at 446 + 16e; it was used (a non-zero type byte at 4
/// and a non-zero sector count at 12); the partition's type is that byte, its first sector
/// and sector count the little-endian words at 8 and 12, and it is bootable exactly when
/// the entry's status byte (its first) is 0x80, the active-partition marker. The partitions
/// listed before are kept, ids follow the list position, entries are taken in table order,
/// and when the list has room every used entry is taken.
pub proof fn lemma_mbr_partitions_describe_entries(parts: Seq<PartitionDesc>, device_id: u16, sector: Seq<u8>, n: int)
    requires
        0 <= n <= 4,
        sector.len() == 512,
    ensures
        ({
            let r = mbr_after(parts, device_id, sector, n);
            &&& parts.len() <= r.len() <= parts.len() + n
            &&& forall|k: int| 0 <= k < parts.len() ==> #[trigger] r[k] == parts[k]
            &&& forall|k: int|
                #![trigger r[k]]
                parts.len() <= k < r.len() ==> {
                    let e = r[k].mbr_index - 1;
                    let base = 446 + 16 * e;
                    &&& 0 <= e < n
                    &&& r[k].id == k && r[k].device_id == device_id && r[k].table_kind == PartitionTableKind::Mbr
                    &&& sector[base + 4] != 0 && le_u32(sector, base + 12) != 0
                    &&& r[k].partition_type == sector[base + 4]
                    &&& r[k].bootable == (sector[base] == 0x80)
                    &&& r[k].start_lba == le_u32(sector, base + 8)
                    &&& r[k].sector_count == le_u32(sector, base + 12)
                }
            &&& forall|j: int, k: int|
                parts.len() <= j < k < r.len() ==> #[trigger] r[j].mbr_index < #[trigger] r[k].mbr_index
            &&& parts.len() + n <= MAX_PARTITIONS ==> forall|e: int|
                0 <= e < n && (#[trigger] mbr_entry_bytes(sector, e))[4] != 0 && le_u32(mbr_entry_bytes(sector, e), 12)
                    != 0 ==> exists|k: int| parts.len() <= k < r.len() && #[trigger] r[k].mbr_index == e + 1
        }),
    decreases n,
{
    if n > 0 {
        lemma_mbr_partitions_describe_entries(parts, device_id, sector, n - 1);
        let p = mbr_after(parts, device_id, sector, n - 1);
        let r = mbr_after(parts, device_id, sector, n);
        let e = n - 1;
        if mbr_entry_used(sector, e) && p.len() < MAX_PARTITIONS {
            let d = mbr_entry_desc(device_id, sector, e, p.len() as int);
            assert(r == p.push(d));
            assert(r[p.len() as int] == d);
            assert(d.mbr_index - 1 == e);
            assert forall|k: int| #![trigger r[k]] parts.len() <= k < r.len() implies {
                let e2 = r[k].mbr_index - 1;
                let base = 446 + 16 * e2;
                &&& 0 <= e2 < n
                &&& r[k].id == k && r[k].device_id == device_id && r[k].table_kind == PartitionTableKind::Mbr
                &&& sector[base + 4] != 0 && le_u32(sector, base + 12) != 0
                &&& r[k].partition_type == sector[base + 4]
                &&& r[k].bootable == (sector[base] == 0x80)
                &&& r[k].start_lba == le_u32(sector, base + 8)
                &&& r[k].sector_count == le_u32(sector, base + 12)
            } by {
                if k < p.len() {
                    assert(r[k] == p[k]);
                }
            }
            assert forall|j: int, k: int| parts.len() <= j < k < r.len() implies #[trigger] r[j].mbr_index
                < #[trigger] r[k].mbr_index by {
                assert(r[j] == p[j]);
                if k < p.len() {
                    assert(r[k] == p[k]);
                }
            }
            if parts.len() + n <= MAX_PARTITIONS {
                assert forall|e2: int|
                    0 <= e2 < n && (#[trigger] mbr_entry_bytes(sector, e2))[4] != 0 && le_u32(mbr_entry_bytes(sector, e2), 12)
                        != 0 implies exists|k: int| parts.len() <= k < r.len() && #[trigger] r[k].mbr_index == e2 + 1 by {
                    if e2 < n - 1 {
                        let k = choose|k: int| parts.len() <= k < p.len() && #[trigger] p[k].mbr_index == e2 + 1;
                        assert(r[k] == p[k]);
                    } else {
                        assert(r[p.len() as int].mbr_index == e2 + 1);
                    }
                }
            }
        } else {
            assert(r == p);
            if parts.len() + n <= MAX_PARTITIONS {
                assert(!mbr_entry_used(sector, e));
                assert forall|e2: int|
                    0 <= e2 < n && (#[trigger] mbr_entry_bytes(sector, e2))[4] != 0 && le_u32(mbr_entry_bytes(sector, e2), 12)
                        != 0 implies exists|k: int| parts.len() <= k < r.len() && #[trigger] r[k].mbr_index == e2 + 1 by {
                    if e2 == e {
                        assert(mbr_entry_bytes(sector, e2)[4] == sector[446 + 16 * e2 + 4]);
                        assert(le_u32(mbr_entry_bytes(sector, e2), 12) == le_u32(sector, 446 + 16 * e2 + 12));
                    }
                }
            }
        }
    }
}

pub(crate) fn zeroed(n: usize) -> (v: Vec<u8>)
    ensures
        v@ == Seq::new(n as nat, |i: int| 0u8),
{
    let mut v: Vec<u8> = Vec::new();
    let mut i: usize = 0;
    while i < n
        invariant
            i <= n,
            v@ == Seq::new(i as nat, |k: int| 0u8),
        decreases n - i,
    {
        v.push(0);
        i = i + 1;
        assert(v@ =~= Seq::new(i as nat, |k: int| 0u8));
    }
    v
}

impl BlockState {
    pub open spec fn partition_descs(&self) -> Seq<PartitionDesc> {
        self.partitions@.map_values(|p: PartitionInfo| p.desc())
    }

    /// Registers the used entries of an MBR partition table held in `sector`.
    pub fn discover_mbr_partitions(&mut self, device_id: u16, sector: &[u8])
        requires
            old(self).wf(),
            sector@.len() == SECTOR_BYTES,
        ensures
            final(self).wf(),
            final(self).devices == old(self).devices,
            final(self).initialized == old(self).initialized,
            final(self).stats == old(self).stats,
            final(self).total_bytes == old(self).total_bytes,
            final(self).mbr_device_count == old(self).mbr_device_count,
            final(self).gpt_device_count == old(self).gpt_device_count,
            final(self).partition_descs() == mbr_after(old(self).partition_descs(), device_id, sector@, 4),
    {
        let mut entry_index: usize = 0;
        while entry_index < MBR_PARTITION_ENTRY_COUNT
            invariant
                entry_index <= 4,
                sector@.len() == 512,
                self.wf(),
                self.devices == old(self).devices,
                self.initialized == old(self).initialized,
                self.stats == old(self).stats,
                self.total_bytes == old(self).total_bytes,
                self.mbr_device_count == old(self).mbr_device_count,
                self.gpt_device_count == old(self).gpt_device_count,
                self.partition_descs() == mbr_after(old(self).partition_descs(), device_id, sector@, entry_index as int),
            decreases 4 - entry_index,
        {
            let base = MBR_PARTITION_TABLE_OFFSET + entry_index * MBR_PARTITION_ENTRY_BYTES;
            let bootable = sector[base] == 0x80;
            let partition_type = sector[base + 4];
            let start_lba = read_u32_le(sector, base + 8) as u64;
            let sector_count = read_u32_le(sector, base + 12) as u64;
            if partition_type != 0 && sector_count != 0 {
                let info = PartitionInfo {
                    id: self.partitions.len() as u16,
                    device_id,
                    table_kind: PartitionTableKind::Mbr,
                    mbr_index: (entry_index + 1) as u8,
                    partition_type,
                    gpt_index: 0,
                    gpt_type_guid: [0u8; 16],
                    gpt_partition_guid: [0u8; 16],
                    bootable,
                    start_lba,
                    sector_count,
                };
                assert(info.gpt_type_guid@ =~= zero_guid());
                assert(info.gpt_partition_guid@ =~= zero_guid());
                assert(info.desc() == mbr_entry_desc(device_id, sector@, entry_index as int, self.partitions@.len() as int));
                self.register_partition(info);
                assert(self.partition_descs() =~= append_capped(
                    mbr_after(old(self).partition_descs(), device_id, sector@, entry_index as int),
                    info.desc(),
                ));
            }
            entry_index = entry_index + 1;
        }
    }
}


/// The header sector starts with the signature "EFI PART".
pub open spec fn gpt_signature_ok(h: Seq<u8>) -> bool {
    h[0] == 0x45 && h[1] == 0x46 && h[2] == 0x49 && h[3] == 0x20 && h[4] == 0x50 && h[5] == 0x41
        && h[6] == 0x52 && h[7] == 0x54
}

/// Partition entry `i` of a GPT array starting at sector `entry_lba`.
pub open spec fn gpt_entry(img: Seq<u8>, entry_lba: int, entry_size: int, i: int) -> Seq<u8> {
    Seq::new(entry_size as nat, |t: int| device_byte(img, entry_lba * 512 + i * entry_size + t))
}

/// A GPT entry describes a partition: non-zero type GUID and `0 < first <= last < sector_count`.
pub open spec fn gpt_entry_used(entry: Seq<u8>, sector_count: int) -> bool {
    &&& entry.subrange(0, 16) != zero_guid()
    &&& le_u64(entry, 32) != 0
    &&& le_u64(entry, 40) >= le_u64(entry, 32)
    &&& le_u64(entry, 40) < sector_count
}

pub open spec fn gpt_entry_desc(device_id: u16, entry: Seq<u8>, i: int, id: int) -> PartitionDesc {
    PartitionDesc {
        id: id as u16,
        device_id,
        table_kind: PartitionTableKind::Gpt,
        mbr_index: 0,
        partition_type: 0,
        gpt_index: (i + 1) as u32,
        gpt_type_guid: entry.subrange(0, 16),
        gpt_partition_guid: entry.subrange(16, 32),
        bootable: false,
        start_lba: le_u64(entry, 32) as u64,
        sector_count: (le_u64(entry, 40) - le_u64(entry, 32) + 1) as u64,
    }
}

/// The partition list after registering the used entries among the first `i` GPT entries.
pub open spec fn gpt_after(
    parts: Seq<PartitionDesc>,
    device_id: u16,
    img: Seq<u8>,
    entry_lba: int,
    entry_size: int,
    i: int,
) -> Seq<PartitionDesc>
    decreases i,
{
    if i <= 0 {
        parts
    } else {
        let p = gpt_after(parts, device_id, img, entry_lba, entry_size, i - 1);
        let entry = gpt_entry(img, entry_lba, entry_size, i - 1);
        if gpt_entry_used(entry, sectors_for(img.len() as int)) {
            append_capped(p, gpt_entry_desc(device_id, entry, i - 1, p.len() as int))
        } else {
            p
        }
    }
}

/// Each partition the GPT scan adds describes the array entry it names. Entry `i`
/// (`gpt_index - 1`) is the `entry_size` bytes at byte `entry_lba * 512 + i * entry_size`
/// of the device; its type GUID (bytes 0 to 15) is not all zero, its first sector (the word
/// at 32) is not zero, and its last sector (the word at 40) is at or after the first and
/// inside the device. The partition carries both GUIDs (the partition GUID is bytes 16 to
/// 31), starts at the first sector and spans last - first + 1 sectors, and is never marked
/// bootable. Partitions listed before are kept, ids follow the list position, entries are
/// taken in array order, and when the list has room every used entry is taken.
pub proof fn lemma_gpt_partitions_describe_entries(
    parts: Seq<PartitionDesc>,
    device_id: u16,
    img: Seq<u8>,
    entry_lba: int,
    entry_size: int,
    n: int,
)
    requires
        0 <= n <= u32::MAX,
        0 <= entry_lba,
        48 <= entry_size,
    ensures
        ({
            let r = gpt_after(parts, device_id, img, entry_lba, entry_size, n);
            let at = |i: int, t: int| device_byte(img, entry_lba * 512 + i * entry_size + t);
            &&& parts.len() <= r.len() <= parts.len() + n
            &&& forall|k: int| 0 <= k < parts.len() ==> #[trigger] r[k] == parts[k]
            &&& forall|k: int|
                #![trigger r[k]]
                parts.len() <= k < r.len() ==> {
                    let i = r[k].gpt_index - 1;
                    let first = le_u64(gpt_entry(img, entry_lba, entry_size, i), 32);
                    let last = le_u64(gpt_entry(img, entry_lba, entry_size, i), 40);
                    &&& 0 <= i < n
                    &&& r[k].id == k && r[k].device_id == device_id && r[k].table_kind == PartitionTableKind::Gpt
                    &&& r[k].gpt_type_guid.len() == 16 && r[k].gpt_partition_guid.len() == 16
                    &&& forall|t: int| 0 <= t < 16 ==> #[trigger] r[k].gpt_type_guid[t] == at(i, t)
                    &&& forall|t: int| 0 <= t < 16 ==> #[trigger] r[k].gpt_partition_guid[t] == at(i, 16 + t)
                    &&& exists|t: int| 0 <= t < 16 && #[trigger] at(i, t) != 0
                    &&& first == at(i, 32) + 256 * at(i, 33) + 65536 * at(i, 34) + 16777216 * at(i, 35) + 4294967296 * (
                    at(i, 36) + 256 * at(i, 37) + 65536 * at(i, 38) + 16777216 * at(i, 39))
                    &&& first != 0 && first <= last && last < sectors_for(img.len() as int)
                    &&& r[k].start_lba == first
                    &&& r[k].sector_count == last - first + 1
                    &&& !r[k].bootable
                }
            &&& forall|j: int, k: int|
                parts.len() <= j < k < r.len() ==> #[trigger] r[j].gpt_index < #[trigger] r[k].gpt_index
            &&& parts.len() + n <= MAX_PARTITIONS ==> forall|i: int|
                0 <= i < n && #[trigger] gpt_entry_used(gpt_entry(img, entry_lba, entry_size, i), sectors_for(img.len() as int))
                    ==> exists|k: int| parts.len() <= k < r.len() && #[trigger] r[k].gpt_index == i + 1
        }),
    decreases n,
{
    if n > 0 {
        lemma_gpt_partitions_describe_entries(parts, device_id, img, entry_lba, entry_size, n - 1);
        let p = gpt_after(parts, device_id, img, entry_lba, entry_size, n - 1);
        let r = gpt_after(parts, device_id, img, entry_lba, entry_size, n);
        let at = |i: int, t: int| device_byte(img, entry_lba * 512 + i * entry_size + t);
        let i = n - 1;
        let entry = gpt_entry(img, entry_lba, entry_size, i);
        let sc = sectors_for(img.len() as int);
        if gpt_entry_used(entry, sc) && p.len() < MAX_PARTITIONS {
            let d = gpt_entry_desc(device_id, entry, i, p.len() as int);
            assert(r == p.push(d));
            assert(r[p.len() as int] == d);
            assert forall|t: int| 0 <= t < 48 implies #[trigger] entry[t] == at(i, t) by {}
            assert(exists|t: int| 0 <= t < 16 && #[trigger] at(i, t) != 0) by {
                if forall|t: int| 0 <= t < 16 ==> #[trigger] at(i, t) == 0 {
                    assert(entry.subrange(0, 16) =~= zero_guid());
                }
            }
            assert forall|k: int| #![trigger r[k]] parts.len() <= k < r.len() implies {
                let i2 = r[k].gpt_index - 1;
                let first = le_u64(gpt_entry(img, entry_lba, entry_size, i2), 32);
                let last = le_u64(gpt_entry(img, entry_lba, entry_size, i2), 40);
                &&& 0 <= i2 < n
                &&& r[k].id == k && r[k].device_id == device_id && r[k].table_kind == PartitionTableKind::Gpt
                &&& r[k].gpt_type_guid.len() == 16 && r[k].gpt_partition_guid.len() == 16
                &&& forall|t: int| 0 <= t < 16 ==> #[trigger] r[k].gpt_type_guid[t] == at(i2, t)
                &&& forall|t: int| 0 <= t < 16 ==> #[trigger] r[k].gpt_partition_guid[t] == at(i2, 16 + t)
                &&& exists|t: int| 0 <= t < 16 && #[trigger] at(i2, t) != 0
                &&& first == at(i2, 32) + 256 * at(i2, 33) + 65536 * at(i2, 34) + 16777216 * at(i2, 35) + 4294967296 * (
                at(i2, 36) + 256 * at(i2, 37) + 65536 * at(i2, 38) + 16777216 * at(i2, 39))
                &&& first != 0 && first <= last && last < sectors_for(img.len() as int)
                &&& r[k].start_lba == first
                &&& r[k].sector_count == last - first + 1
                &&& !r[k].bootable
            } by {
                if k < p.len() {
                    assert(r[k] == p[k]);
                }
            }
            assert forall|j: int, k: int| parts.len() <= j < k < r.len() implies #[trigger] r[j].gpt_index
                < #[trigger] r[k].gpt_index by {
                assert(r[j] == p[j]);
                if k < p.len() {
                    assert(r[k] == p[k]);
                }
            }
            if parts.len() + n <= MAX_PARTITIONS {
                assert forall|i2: int|
                    0 <= i2 < n && #[trigger] gpt_entry_used(gpt_entry(img, entry_lba, entry_size, i2), sc) implies exists|k: int|
                    parts.len() <= k < r.len() && #[trigger] r[k].gpt_index == i2 + 1 by {
                    if i2 < n - 1 {
                        let k = choose|k: int| parts.len() <= k < p.len() && #[trigger] p[k].gpt_index == i2 + 1;
                        assert(r[k] == p[k]);
                    } else {
                        assert(r[p.len() as int].gpt_index == i2 + 1);
                    }
                }
            }
        } else {
            assert(r == p);
        }
    }
}

/// Whether a device image carries a usable GPT, and the partition list after its entries.
pub open spec fn gpt_probe(parts: Seq<PartitionDesc>, device_id: u16, img: Seq<u8>) -> (bool, Seq<PartitionDesc>) {
    let sc = sectors_for(img.len() as int);
    let h = sector_at(img, 1);
    let header_bytes = le_u32(h, 12);
    let entry_lba = le_u64(h, 72);
    let entry_count = le_u32(h, 80);
    let entry_size = le_u32(h, 84);
    if sc <= 1 || !gpt_signature_ok(h) || header_bytes < 92 || header_bytes > 512 {
        (false, parts)
    } else if entry_count == 0 {
        (true, parts)
    } else if entry_size < 128 || entry_size > 512 || entry_lba + sectors_for(entry_count * entry_size) > sc {
        (false, parts)
    } else {
        (true, gpt_after(parts, device_id, img, entry_lba, entry_size, entry_count))
    }
}

/// Offsets inside the GPT entry array stay inside the sectors it was checked to span.
proof fn lemma_gpt_entry_sectors(entry_lba: int, entry_size: int, entry_count: int, sc: int, i: int)
    requires
        128 <= entry_size <= 512,
        0 <= i < entry_count,
        0 <= entry_lba,
        entry_lba + sectors_for(entry_count * entry_size) <= sc,
    ensures
        entry_lba + (i * entry_size) / 512 < sc,
        (i * entry_size) % 512 + entry_size > 512 ==> entry_lba + (i * entry_size) / 512 + 1 < sc,
        ((i * entry_size) / 512) * 512 + (i * entry_size) % 512 == i * entry_size,
        0 <= (i * entry_size) % 512 < 512,
        0 <= i * entry_size,
        (i + 1) * entry_size <= entry_count * entry_size,
{
    assert((i + 1) * entry_size <= entry_count * entry_size) by (nonlinear_arith)
        requires
            0 <= i < entry_count,
            0 <= entry_size,
    ;
    assert(0 <= i * entry_size) by (nonlinear_arith)
        requires
            0 <= i,
            0 <= entry_size,
    ;
    let b = i * entry_size;
    let total = entry_count * entry_size;
    assert((i + 1) * entry_size == b + entry_size) by (nonlinear_arith)
        requires
            b == i * entry_size,
    ;
    assert(b / 512 * 512 + b % 512 == b && 0 <= b % 512 < 512) by (nonlinear_arith)
        requires
            0 <= b,
    ;
    assert(b / 512 < (total + 511) / 512) by (nonlinear_arith)
        requires
            0 <= b,
            b + entry_size <= total,
            entry_size >= 128,
    ;
    assert(b % 512 + entry_size > 512 ==> b / 512 + 1 < (total + 511) / 512) by (nonlinear_arith)
        requires
            0 <= b,
            b + entry_size <= total,
            entry_size <= 512,
            b / 512 * 512 + b % 512 == b,
            0 <= b % 512 < 512,
    ;
}

impl BlockState {
    /// Looks for a GPT on a device and registers its used entries.
    /// Returns whether the device carries a GPT.
    pub fn discover_gpt_partitions(&mut self, device_id: u16) -> (found: bool)
        requires
            old(self).wf(),
            (device_id as int) < old(self).devices@.len(),
        ensures
            final(self).wf(),
            final(self).devices == old(self).devices,
            final(self).initialized == old(self).initialized,
            final(self).stats == old(self).stats,
            final(self).total_bytes == old(self).total_bytes,
            final(self).mbr_device_count == old(self).mbr_device_count,
            final(self).gpt_device_count == old(self).gpt_device_count,
            (found, final(self).partition_descs()) == gpt_probe(
                old(self).partition_descs(),
                device_id,
                old(self).devices@[device_id as int].bytes@,
            ),
    {
        let ghost img = self.devices@[device_id as int].bytes@;
        let ghost sc = sectors_for(img.len() as int);
        let device_sector_count = self.devices[device_id as usize].info.sector_count;
        let mut header = zeroed(SECTOR_BYTES);
        let r = self.read_bytes_raw(device_id, GPT_HEADER_LBA, 1, header.as_mut_slice());
        if r.is_err() {
            return false;
        }
        proof {
            lemma_sector_inside(img.len() as int, 1);
            assert(header@ =~= sector_at(img, 1));
        }
        let signature_ok = header[0] == 0x45 && header[1] == 0x46 && header[2] == 0x49 && header[3] == 0x20
            && header[4] == 0x50 && header[5] == 0x41 && header[6] == 0x52 && header[7] == 0x54;
        if !signature_ok {
            return false;
        }
        let header_bytes = read_u32_le(header.as_slice(), 12) as usize;
        if header_bytes < GPT_MIN_HEADER_BYTES || header_bytes > SECTOR_BYTES {
            return false;
        }
        let entry_lba = read_u64_le(header.as_slice(), 72);
        let entry_count = read_u32_le(header.as_slice(), 80);
        let entry_size = read_u32_le(header.as_slice(), 84) as usize;
        if entry_count == 0 {
            return true;
        }
        if entry_size < GPT_PARTITION_ENTRY_MIN_BYTES || entry_size > SECTOR_BYTES {
            return false;
        }
        assert((entry_count as int) * (entry_size as int) <= 0xFFFF_FFFFint * 512) by (nonlinear_arith)
            requires
                entry_count <= 0xFFFF_FFFFu32,
                entry_size <= 512,
        ;
        let entries_bytes = (entry_count as u64) * (entry_size as u64);
        let entry_sectors = entries_bytes / 512 + if entries_bytes % 512 != 0 { 1 } else { 0 };
        assert(entry_sectors as int == sectors_for(entries_bytes as int));
        match entry_lba.checked_add(entry_sectors) {
            None => {
                return false;
            },
            Some(end_lba) => {
                if end_lba > device_sector_count {
                    return false;
                }
            },
        }

        let mut entry_sector = zeroed(SECTOR_BYTES);
        let mut next_sector = zeroed(SECTOR_BYTES);
        let mut cached_entry_lba = u64::MAX;
        let mut entry_index: u32 = 0;
        while entry_index < entry_count
            invariant
                entry_index <= entry_count,
                self.wf(),
                self.devices == old(self).devices,
                self.initialized == old(self).initialized,
                self.stats == old(self).stats,
                self.total_bytes == old(self).total_bytes,
                self.mbr_device_count == old(self).mbr_device_count,
                self.gpt_device_count == old(self).gpt_device_count,
                (device_id as int) < self.devices@.len(),
                img == self.devices@[device_id as int].bytes@,
                sc == sectors_for(img.len() as int),
                device_sector_count == sc,
                128 <= entry_size <= 512,
                entry_lba + sectors_for(entry_count * entry_size) <= sc,
                entry_sector@.len() == 512,
                next_sector@.len() == 512,
                cached_entry_lba != u64::MAX ==> entry_sector@ == sector_at(img, cached_entry_lba as int),
                self.partition_descs() == gpt_after(
                    old(self).partition_descs(),
                    device_id,
                    img,
                    entry_lba as int,
                    entry_size as int,
                    entry_index as int,
                ),
            decreases entry_count - entry_index,
        {
            proof {
                lemma_gpt_entry_sectors(entry_lba as int, entry_size as int, entry_count as int, sc, entry_index as int);
            }
            let byte_offset = (entry_index as u64) * (entry_size as u64);
            let lba = entry_lba + byte_offset / 512;
            let offset = (byte_offset % 512) as usize;
            proof {
                lemma_sector_inside(img.len() as int, lba as int);
            }
            if cached_entry_lba != lba {
                let rr = self.read_bytes_raw(device_id, lba, 1, entry_sector.as_mut_slice());
                proof {
                    assert(entry_sector@ =~= sector_at(img, lba as int));
                }
                cached_entry_lba = lba;
            }
            let mut entry: Vec<u8> = Vec::new();
            if offset + entry_size <= SECTOR_BYTES {
                let mut t: usize = 0;
                while t < entry_size
                    invariant
                        t <= entry_size,
                        offset + entry_size <= 512,
                        entry_sector@ == sector_at(img, lba as int),
                        entry@ == Seq::new(t as nat, |k: int| device_byte(img, lba * 512 + offset + k)),
                    decreases entry_size - t,
                {
                    entry.push(entry_sector[offset + t]);
                    t = t + 1;
                    assert(entry@ =~= Seq::new(t as nat, |k: int| device_byte(img, lba * 512 + offset + k)));
                }
            } else {
                proof {
                    lemma_sector_inside(img.len() as int, lba as int + 1);
                }
                let rr = self.read_bytes_raw(device_id, lba + 1, 1, next_sector.as_mut_slice());
                proof {
                    assert(next_sector@ =~= sector_at(img, lba as int + 1));
                }
                let first_len = SECTOR_BYTES - offset;
                let mut t: usize = 0;
                while t < entry_size
                    invariant
                        t <= entry_size,
                        offset + entry_size > 512,
                        first_len == 512 - offset,
                        offset < 512,
                        entry_size <= 512,
                        entry_sector@ == sector_at(img, lba as int),
                        next_sector@ == sector_at(img, lba as int + 1),
                        entry@ == Seq::new(t as nat, |k: int| device_byte(img, lba * 512 + offset + k)),
                    decreases entry_size - t,
                {
                    if t < first_len {
                        entry.push(entry_sector[offset + t]);
                    } else {
                        entry.push(next_sector[t - first_len]);
                    }
                    t = t + 1;
                    assert(entry@ =~= Seq::new(t as nat, |k: int| device_byte(img, lba * 512 + offset + k)));
                }
            }
            assert(entry@ =~= gpt_entry(img, entry_lba as int, entry_size as int, entry_index as int));

            let mut type_guid = [0u8; 16];
            let mut part_guid = [0u8; 16];
            let mut type_zero = true;
            let mut g: usize = 0;
            while g < 16
                invariant
                    g <= 16,
                    entry@.len() == entry_size,
                    128 <= entry_size,
                    type_guid@.len() == 16,
                    part_guid@.len() == 16,
                    forall|k: int| 0 <= k < g ==> type_guid@[k] == entry@[k] && part_guid@[k] == entry@[16 + k],
                    type_zero == (forall|k: int| 0 <= k < g ==> entry@[k] == 0),
                decreases 16 - g,
            {
                type_guid[g] = entry[g];
                part_guid[g] = entry[16 + g];
                if entry[g] != 0 {
                    type_zero = false;
                }
                g = g + 1;
            }
            assert(type_guid@ =~= entry@.subrange(0, 16));
            assert(part_guid@ =~= entry@.subrange(16, 32));
            assert(type_zero == (entry@.subrange(0, 16) == zero_guid())) by {
                if !type_zero {
                    let k = choose|k: int| 0 <= k < 16 && entry@[k] != 0;
                    assert(entry@.subrange(0, 16)[k] != zero_guid()[k]);
                } else {
                    assert(entry@.subrange(0, 16) =~= zero_guid());
                }
            }
            let first_lba = read_u64_le(entry.as_slice(), 32);
            let last_lba = read_u64_le(entry.as_slice(), 40);
            if !type_zero && first_lba != 0 && last_lba >= first_lba && last_lba < device_sector_count {
                let info = PartitionInfo {
                    id: self.partitions.len() as u16,
                    device_id,
                    table_kind: PartitionTableKind::Gpt,
                    mbr_index: 0,
                    partition_type: 0,
                    gpt_index: entry_index + 1,
                    gpt_type_guid: type_guid,
                    gpt_partition_guid: part_guid,
                    bootable: false,
                    start_lba: first_lba,
                    sector_count: last_lba - first_lba + 1,
                };
                assert(info.desc() == gpt_entry_desc(device_id, entry@, entry_index as int, self.partitions@.len() as int));
                self.register_partition(info);
                assert(self.partition_descs() =~= append_capped(
                    gpt_after(old(self).partition_descs(), device_id, img, entry_lba as int, entry_size as int, entry_index as int),
                    info.desc(),
                ));
            }
            entry_index = entry_index + 1;
        }
        true
    }
}


/// The MBR boot signature closes sector 0.
pub open spec fn mbr_signature_ok(s0: Seq<u8>) -> bool {
    s0[510] == 0x55 && s0[511] == 0xAA
}

/// Partition discovery on one device: `(partitions, mbr_device_count, gpt_device_count)`
/// after the device is examined. A GPT takes precedence over an MBR table.
pub open spec fn discover_device(
    parts: Seq<PartitionDesc>,
    mbr_count: u64,
    gpt_count: u64,
    device_id: u16,
    img: Seq<u8>,
) -> (Seq<PartitionDesc>, u64, u64) {
    if img.len() == 0 {
        (parts, mbr_count, gpt_count)
    } else {
        let s0 = sector_at(img, 0);
        let has_mbr = mbr_signature_ok(s0);
        let mbr2 = if has_mbr { sat_add_u64(mbr_count, 1) } else { mbr_count };
        let probe = gpt_probe(parts, device_id, img);
        if probe.0 {
            (probe.1, mbr2, sat_add_u64(gpt_count, 1))
        } else if has_mbr {
            (mbr_after(parts, device_id, s0, 4), mbr2, gpt_count)
        } else {
            (parts, mbr2, gpt_count)
        }
    }
}

/// On a device without a usable GPT, the MBR in its first sector counts only when that
/// sector ends with the boot signature 0x55 0xAA (bytes 510 and 511): then its entries give
/// the partitions, read from the device's first 512 bytes, and the device counts as an MBR
/// device; without the signature no partition is added.
pub proof fn lemma_mbr_needs_boot_signature(
    parts: Seq<PartitionDesc>,
    mbr_count: u64,
    gpt_count: u64,
    device_id: u16,
    img: Seq<u8>,
)
    requires
        img.len() >= 512,
        !gpt_probe(parts, device_id, img).0,
    ensures
        ({
            let r = discover_device(parts, mbr_count, gpt_count, device_id, img);
            &&& img[510] == 0x55 && img[511] == 0xAA ==> r.0 == mbr_after(parts, device_id, img.subrange(0, 512), 4)
                && r.1 == (if mbr_count == u64::MAX { u64::MAX } else { (mbr_count + 1) as u64 }) && r.2 == gpt_count
            &&& !(img[510] == 0x55 && img[511] == 0xAA) ==> r == (parts, mbr_count, gpt_count)
        }),
{
    assert(sector_at(img, 0) =~= img.subrange(0, 512));
}

/// Partition discovery over the first `d` device images, in order.
pub open spec fn discover_all(
    parts: Seq<PartitionDesc>,
    mbr_count: u64,
    gpt_count: u64,
    images: Seq<Seq<u8>>,
    d: int,
) -> (Seq<PartitionDesc>, u64, u64)
    decreases d,
{
    if d <= 0 {
        (parts, mbr_count, gpt_count)
    } else {
        let prev = discover_all(parts, mbr_count, gpt_count, images, d - 1);
        discover_device(prev.0, prev.1, prev.2, (d - 1) as u16, images[d - 1])
    }
}

impl BlockState {
    /// Examines every registered device for a GPT, then an MBR partition table.
    pub fn discover_partitions(&mut self)
        requires
            old(self).wf(),
        ensures
            final(self).wf(),
            final(self).devices == old(self).devices,
            final(self).initialized == old(self).initialized,
            final(self).stats == old(self).stats,
            final(self).total_bytes == old(self).total_bytes,
            (final(self).partition_descs(), final(self).mbr_device_count, final(self).gpt_device_count)
                == discover_all(
                old(self).partition_descs(),
                old(self).mbr_device_count,
                old(self).gpt_device_count,
                old(self).images(),
                old(self).devices@.len() as int,
            ),
    {
        let mut mbr_sector = zeroed(SECTOR_BYTES);
        let mut device_index: usize = 0;
        while device_index < self.devices.len()
            invariant
                device_index <= self.devices@.len(),
                self.wf(),
                self.devices == old(self).devices,
                self.initialized == old(self).initialized,
                self.stats == old(self).stats,
                self.total_bytes == old(self).total_bytes,
                mbr_sector@.len() == 512,
                (self.partition_descs(), self.mbr_device_count, self.gpt_device_count) == discover_all(
                    old(self).partition_descs(),
                    old(self).mbr_device_count,
                    old(self).gpt_device_count,
                    old(self).images(),
                    device_index as int,
                ),
            decreases self.devices@.len() - device_index,
        {
            let device_id = self.devices[device_index].info.id;
            let ghost img = self.devices@[device_index as int].bytes@;
            assert(old(self).images()[device_index as int] == img);
            proof {
                lemma_sector_inside(img.len() as int, 0);
            }
            let r = self.read_bytes_raw(device_id, 0, 1, mbr_sector.as_mut_slice());
            if r.is_ok() {
                assert(mbr_sector@ =~= sector_at(img, 0));
                let has_mbr_signature = mbr_sector[MBR_SIGNATURE_OFFSET] == 0x55
                    && mbr_sector[MBR_SIGNATURE_OFFSET + 1] == 0xAA;
                if has_mbr_signature {
                    self.mbr_device_count = self.mbr_device_count.saturating_add(1);
                }
                if self.discover_gpt_partitions(device_id) {
                    self.gpt_device_count = self.gpt_device_count.saturating_add(1);
                } else if has_mbr_signature {
                    self.discover_mbr_partitions(device_id, mbr_sector.as_slice());
                }
            }
            device_index = device_index + 1;
        }
    }

    /// Brings the block layer up once: registers the boot archive image, if any,
    /// as device 0 and discovers partitions.
    pub fn initialize(&mut self, archive: Option<Vec<u8>>) -> (r: Result<BlockSummary, BlockInitError>)
        requires
            old(self).wf(),
        ensures
            final(self).wf(),
            old(self).initialized ==> r == Err::<BlockSummary, BlockInitError>(BlockInitError::AlreadyInitialized)
                && *final(self) == *old(self),
            !old(self).initialized ==> {
                let images = match archive {
                    Some(bytes) => if old(self).devices@.len() < MAX_BLOCK_DEVICES {
                        old(self).images().push(bytes@)
                    } else {
                        old(self).images()
                    },
                    None => old(self).images(),
                };
                &&& final(self).initialized
                &&& final(self).images() == images
                &&& (final(self).partition_descs(), final(self).mbr_device_count, final(self).gpt_device_count)
                    == discover_all(
                    old(self).partition_descs(),
                    old(self).mbr_device_count,
                    old(self).gpt_device_count,
                    images,
                    images.len() as int,
                )
                &&& r matches Ok(s) && s.device_count == images.len() && s.partition_count
                    == final(self).partitions@.len() && s.total_bytes == final(self).total_bytes
                    && s.mbr_device_count == final(self).mbr_device_count && s.gpt_device_count
                    == final(self).gpt_device_count
            },
    {
        if self.initialized {
            return Err(BlockInitError::AlreadyInitialized);
        }
        self.initialized = true;
        match archive {
            Some(bytes) => {
                self.register_device(BlockDeviceKind::InitrdArchive, "initrd0", true, bytes);
            },
            None => {},
        }
        proof {
            assert(self.images().len() == self.devices@.len());
        }
        self.discover_partitions();
        Ok(self.summary())
    }
}


/// The contents of sector `lba` of device `device_id`, if the device exists and
/// the sector starts inside its image.
pub open spec fn image_sector(images: Seq<Seq<u8>>, device_id: int, lba: int) -> Option<Seq<u8>> {
    if 0 <= device_id < images.len() && 0 <= lba && lba * 512 < images[device_id].len() {
        Some(sector_at(images[device_id], lba))
    } else {
        None
    }
}

impl BlockState {
    /// Everything but the statistics is unchanged.
    pub open spec fn same_layout(&self, other: &BlockState) -> bool {
        &&& self.devices == other.devices
        &&& self.partitions == other.partitions
        &&& self.initialized == other.initialized
        &&& self.total_bytes == other.total_bytes
        &&& self.mbr_device_count == other.mbr_device_count
        &&& self.gpt_device_count == other.gpt_device_count
    }

    /// Reads one sector through `read`, returning its bytes.
    pub fn read_sector(&mut self, device_id: u16, lba: u64) -> (r: Option<Vec<u8>>)
        requires
            old(self).wf(),
            old(self).initialized,
        ensures
            final(self).wf(),
            final(self).same_layout(old(self)),
            match r {
                Some(v) => image_sector(old(self).images(), device_id as int, lba as int) == Some(v@),
                None => image_sector(old(self).images(), device_id as int, lba as int) is None,
            },
    {
        let mut buf = zeroed(SECTOR_BYTES);
        proof {
            lemma_sector_inside(if (device_id as int) < self.devices@.len() {
                self.devices@[device_id as int].bytes@.len() as int
            } else {
                0
            }, lba as int);
        }
        let r = self.read(device_id, lba, 1, buf.as_mut_slice());
        match r {
            Ok(()) => {
                assert(buf@ =~= sector_at(old(self).images()[device_id as int], lba as int));
                Some(buf)
            },
            Err(_) => None,
        }
    }
}

} // verus!
