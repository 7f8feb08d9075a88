//! The Supernova accelerator driver: payloads go into the device's shared ring buffer and
//! the doorbell register announces them. The device registers are held as plain values.
use vstd::prelude::*;

verus! {

pub const SUPERNOVA_PHYS_BASE: u64 = 0xFE00_0000;
pub const RING_BUFFER_BYTES: usize = 4096;

/// A compressed HEX2 payload: up to 32 bytes.
#[derive(Copy, Clone, Debug)]
pub struct Hex2Payload {
    pub data: [u8; 32],
    pub size: usize,
}

/// A compressed HEX4 payload: up to 64 bytes.
#[derive(Copy, Clone, Debug)]
pub struct Hex4Payload {
    pub data: [u8; 64],
    pub size: usize,
}

/// An SXRC payload of either form.
#[derive(Copy, Clone, Debug)]
pub enum SxrcPayload {
    Hex2(Hex2Payload),
    Hex4(Hex4Payload),
}

/// The compute backend a MaRTix task is for.
#[derive(Copy, Clone, Debug, PartialEq, Eq, Structural)]
pub enum ComputeBackend {
    Cuda,
    Vulkan,
    Metal,
}

/// The RT core command of a MaRTix task.
#[derive(Copy, Clone, Debug, PartialEq, Eq, Structural)]
pub enum RTCoreCommand {
    RayTrace,
    MatrixMultiply,
}

/// A MaRTix task: where it runs, what it does, and its payload.
#[derive(Copy, Clone, Debug)]
pub struct MartixPayload {
    pub backend: ComputeBackend,
    pub command: RTCoreCommand,
    pub payload: SxrcPayload,
}

/// The payload's declared size and its data bytes.
pub open spec fn payload_parts(p: SxrcPayload) -> (int, Seq<u8>) {
    match p {
        SxrcPayload::Hex2(h) => (h.size as int, h.data@),
        SxrcPayload::Hex4(h) => (h.size as int, h.data@),
    }
}

/// The device's registers and shared ring buffer.
pub struct SupernovaHardware {
    pub doorbell: u32,
    pub completion: u32,
    pub ack: u32,
    pub reserved: u32,
    pub ring_buffer: Vec<u8>,
}

impl SupernovaHardware {
    pub fn new() -> (h: Self)
        ensures
            h.doorbell == 0 && h.completion == 0 && h.ack == 0 && h.reserved == 0,
            h.ring_buffer@ == Seq::new(RING_BUFFER_BYTES as nat, |i: int| 0u8),
    {
        SupernovaHardware {
            doorbell: 0,
            completion: 0,
            ack: 0,
            reserved: 0,
            ring_buffer: crate::block::zeroed(RING_BUFFER_BYTES),
        }
    }
}

/// The device's base address in the direct map at `hhdm`.
pub fn supernova_mmio_base(hhdm: Option<u64>) -> (a: u64)
    requires
        hhdm matches Some(o) ==> o + SUPERNOVA_PHYS_BASE <= u64::MAX,
    ensures
        a == match hhdm {
            Some(o) => o + SUPERNOVA_PHYS_BASE,
            None => SUPERNOVA_PHYS_BASE as int,
        },
{
    let offset = match hhdm {
        Some(o) => o,
        None => 0,
    };
    offset + SUPERNOVA_PHYS_BASE
}

/// The ring buffer after the chunked copy of `data` at `offset`: the copy starts at the
/// 4-byte boundary at or below `offset` and the last chunk is padded with zeros.
pub open spec fn ring_after_write(ring: Seq<u8>, offset: int, data: Seq<u8>) -> Seq<u8> {
    let base = offset - offset % 4;
    let span = (data.len() + 3) / 4 * 4;
    Seq::new(
        ring.len(),
        |k: int|
            if base <= k < base + span {
                if k - base < data.len() { data[k - base] } else { 0u8 }
            } else {
                ring[k]
            },
    )
}

/// The ring buffer after the byte-by-byte copy of `data` at `offset`.
pub open spec fn ring_after_bytes(ring: Seq<u8>, offset: int, data: Seq<u8>) -> Seq<u8> {
    Seq::new(ring.len(), |k: int| if offset <= k < offset + data.len() { data[k - offset] } else { ring[k] })
}

/// The driver: its device, whether it is up, the last sync sequence, and the device address.
pub struct SupernovaDriver {
    pub is_initialized: bool,
    pub seq_tracker: u32,
    pub mmio: u64,
    pub hw: SupernovaHardware,
}

impl SupernovaDriver {
    pub open spec fn wf(&self) -> bool {
        self.hw.ring_buffer@.len() == RING_BUFFER_BYTES
    }

    pub fn new() -> (d: Self)
        ensures
            d.wf(),
            !d.is_initialized,
            d.seq_tracker == 0,
            d.mmio == SUPERNOVA_PHYS_BASE,
            d.hw.doorbell == 0 && d.hw.completion == 0 && d.hw.ack == 0,
            d.hw.ring_buffer@ == Seq::new(RING_BUFFER_BYTES as nat, |i: int| 0u8),
    {
        SupernovaDriver { is_initialized: false, seq_tracker: 0, mmio: SUPERNOVA_PHYS_BASE, hw: SupernovaHardware::new() }
    }

    /// Marks the driver up and, with a direct map, points it at the device there.
    pub fn init(&mut self, hhdm: Option<u64>)
        requires
            hhdm matches Some(o) ==> o + SUPERNOVA_PHYS_BASE <= u64::MAX,
        ensures
            final(self).is_initialized,
            final(self).mmio == match hhdm {
                Some(o) => (o + SUPERNOVA_PHYS_BASE) as u64,
                None => old(self).mmio,
            },
            final(self).seq_tracker == old(self).seq_tracker,
            final(self).hw == old(self).hw,
    {
        match hhdm {
            Some(o) => {
                self.mmio = o + SUPERNOVA_PHYS_BASE;
            },
            None => {},
        }
        self.is_initialized = true;
    }

    pub fn ring_doorbell(&mut self, task_id: u32)
        ensures
            final(self).hw == (SupernovaHardware { doorbell: task_id, ..old(self).hw }),
            final(self).is_initialized == old(self).is_initialized,
            final(self).seq_tracker == old(self).seq_tracker,
            final(self).mmio == old(self).mmio,
    {
        self.hw.doorbell = task_id;
    }

    pub fn ack_task(&mut self, task_id: u32)
        ensures
            final(self).hw == (SupernovaHardware { ack: task_id, ..old(self).hw }),
            final(self).is_initialized == old(self).is_initialized,
            final(self).seq_tracker == old(self).seq_tracker,
            final(self).mmio == old(self).mmio,
    {
        self.hw.ack = task_id;
    }

    /// Whether the device reports the task complete.
    pub fn gsp_completed(&self, expected_task_id: u32) -> (b: bool)
        ensures
            b == (self.hw.completion == expected_task_id),
    {
        self.hw.completion == expected_task_id
    }

    /// Copies `data` into the ring buffer in 4-byte chunks; refused when it does not fit.
    fn write_to_ring_buffer(&mut self, offset: usize, data: &[u8]) -> (ok: bool)
        requires
            old(self).wf(),
        ensures
            final(self).wf(),
            ok == (offset + data@.len() <= RING_BUFFER_BYTES),
            ok ==> final(self).hw.ring_buffer@ == ring_after_write(old(self).hw.ring_buffer@, offset as int, data@),
            !ok ==> final(self).hw.ring_buffer@ == old(self).hw.ring_buffer@,
            final(self).hw.doorbell == old(self).hw.doorbell,
            final(self).hw.completion == old(self).hw.completion,
            final(self).hw.ack == old(self).hw.ack,
            final(self).is_initialized == old(self).is_initialized,
            final(self).seq_tracker == old(self).seq_tracker,
            final(self).mmio == old(self).mmio,
    {
        if data.len() > RING_BUFFER_BYTES || offset > RING_BUFFER_BYTES - data.len() {
            return false;
        }
        let base = offset - offset % 4;
        let span = (data.len() + 3) / 4 * 4;
        let ghost ring0 = self.hw.ring_buffer@;
        assert(base + span <= RING_BUFFER_BYTES) by (nonlinear_arith)
            requires
                base == offset - offset % 4,
                span == (data@.len() + 3) / 4 * 4,
                offset + data@.len() <= 4096,
        ;
        let mut k: usize = 0;
        while k < span
            invariant
                base + span <= RING_BUFFER_BYTES,
                k <= span,
                self.hw.ring_buffer@.len() == RING_BUFFER_BYTES,
                ring0.len() == RING_BUFFER_BYTES,
                forall|j: int| 0 <= j < RING_BUFFER_BYTES ==> #[trigger] self.hw.ring_buffer@[j] == if base <= j < base + k {
                    if j - base < data@.len() { data@[j - base] } else { 0u8 }
                } else {
                    ring0[j]
                },
                self.hw.doorbell == old(self).hw.doorbell,
                self.hw.completion == old(self).hw.completion,
                self.hw.ack == old(self).hw.ack,
                self.is_initialized == old(self).is_initialized,
                self.seq_tracker == old(self).seq_tracker,
                self.mmio == old(self).mmio,
            decreases span - k,
        {
            let byte = if k < data.len() { data[k] } else { 0u8 };
            self.hw.ring_buffer.set(base + k, byte);
            k = k + 1;
        }
        assert(self.hw.ring_buffer@ =~= ring_after_write(ring0, offset as int, data@));
        true
    }

    /// Copies `data` into the ring buffer byte by byte at `offset`.
    fn write_bytes(&mut self, offset: usize, data: &[u8])
        requires
            old(self).wf(),
            offset + data@.len() <= RING_BUFFER_BYTES,
        ensures
            final(self).wf(),
            final(self).hw.ring_buffer@ == ring_after_bytes(old(self).hw.ring_buffer@, offset as int, data@),
            final(self).hw.doorbell == old(self).hw.doorbell,
            final(self).hw.completion == old(self).hw.completion,
            final(self).hw.ack == old(self).hw.ack,
            final(self).is_initialized == old(self).is_initialized,
            final(self).seq_tracker == old(self).seq_tracker,
            final(self).mmio == old(self).mmio,
    {
        let ghost ring0 = self.hw.ring_buffer@;
        let mut k: usize = 0;
        while k < data.len()
            invariant
                offset + data@.len() <= RING_BUFFER_BYTES,
                k <= data@.len(),
                self.hw.ring_buffer@.len() == RING_BUFFER_BYTES,
                ring0.len() == RING_BUFFER_BYTES,
                forall|j: int| 0 <= j < RING_BUFFER_BYTES ==> #[trigger] self.hw.ring_buffer@[j] == if offset <= j < offset + k {
                    data@[j - offset]
                } else {
                    ring0[j]
                },
                self.hw.doorbell == old(self).hw.doorbell,
                self.hw.completion == old(self).hw.completion,
                self.hw.ack == old(self).hw.ack,
                self.is_initialized == old(self).is_initialized,
                self.seq_tracker == old(self).seq_tracker,
                self.mmio == old(self).mmio,
            decreases data@.len() - k,
        {
            self.hw.ring_buffer.set(offset + k, data[k]);
            k = k + 1;
        }
        assert(self.hw.ring_buffer@ =~= ring_after_bytes(ring0, offset as int, data@));
    }

    /// Hands an SXRC payload to the device: its valid bytes into the ring buffer and its
    /// size to the doorbell. A payload whose size exceeds its data is dropped.
    pub fn route_sxrc(&mut self, payload: SxrcPayload)
        requires
            old(self).wf(),
        ensures
            final(self).wf(),
            final(self).is_initialized == old(self).is_initialized,
            final(self).seq_tracker == old(self).seq_tracker,
            final(self).mmio == old(self).mmio,
            final(self).hw.completion == old(self).hw.completion,
            final(self).hw.ack == old(self).hw.ack,
            ({
                let (size, data) = payload_parts(payload);
                if size > data.len() {
                    final(self).hw.ring_buffer@ == old(self).hw.ring_buffer@ && final(self).hw.doorbell
                        == old(self).hw.doorbell
                } else {
                    final(self).hw.ring_buffer@ == ring_after_write(old(self).hw.ring_buffer@, 0, data.subrange(0, size))
                        && final(self).hw.doorbell == size as u32
                }
            }),
    {
        let (size, data): (usize, &[u8]) = match &payload {
            SxrcPayload::Hex2(p) => (p.size, p.data.as_slice()),
            SxrcPayload::Hex4(p) => (p.size, p.data.as_slice()),
        };
        if size > data.len() {
            return;
        }
        if self.write_to_ring_buffer(0, &data[0..size]) {
            let route_id = size as u32;
            self.ring_doorbell(route_id);
        }
    }

    /// Hands a MaRTix task to the device: backend and command ids in the first two bytes,
    /// the payload after them, and the backend id with the size on the doorbell.
    pub fn route_martix(&mut self, payload: MartixPayload)
        requires
            old(self).wf(),
            payload_parts(payload.payload).0 <= payload_parts(payload.payload).1.len(),
        ensures
            final(self).wf(),
            final(self).is_initialized == old(self).is_initialized,
            final(self).seq_tracker == old(self).seq_tracker,
            final(self).mmio == old(self).mmio,
            final(self).hw.completion == old(self).hw.completion,
            final(self).hw.ack == old(self).hw.ack,
            ({
                let (size, data) = payload_parts(payload.payload);
                let backend_id: u32 = match payload.backend {
                    ComputeBackend::Cuda => 1,
                    ComputeBackend::Vulkan => 2,
                    ComputeBackend::Metal => 3,
                };
                let command_id: u8 = match payload.command {
                    RTCoreCommand::RayTrace => 0,
                    RTCoreCommand::MatrixMultiply => 1,
                };
                &&& final(self).hw.ring_buffer@ == ring_after_bytes(
                    ring_after_bytes(old(self).hw.ring_buffer@, 0, seq![backend_id as u8, command_id]),
                    2,
                    data.subrange(0, size),
                )
                &&& final(self).hw.doorbell == ((backend_id << 16u32) | ((size as u32) & 0xFFFFu32))
            }),
    {
        let (size, data): (usize, &[u8]) = match &payload.payload {
            SxrcPayload::Hex2(p) => (p.size, p.data.as_slice()),
            SxrcPayload::Hex4(p) => (p.size, p.data.as_slice()),
        };
        let backend_id: u32 = match payload.backend {
            ComputeBackend::Cuda => 1,
            ComputeBackend::Vulkan => 2,
            ComputeBackend::Metal => 3,
        };
        let command_id: u8 = match payload.command {
            RTCoreCommand::RayTrace => 0,
            RTCoreCommand::MatrixMultiply => 1,
        };
        let header: [u8; 2] = [backend_id as u8, command_id];
        assert(header@ =~= seq![backend_id as u8, command_id]);
        self.write_bytes(0, header.as_slice());
        self.write_bytes(2, &data[0..size]);
        let task_id = (backend_id << 16u32) | ((size as u32) & 0xFFFFu32);
        self.ring_doorbell(task_id);
    }

    /// Starts a synchronization: the next sequence number goes to the doorbell and is
    /// returned, to be waited for and then acknowledged.
    pub fn begin_synchronize(&mut self) -> (id: u32)
        ensures
            id == (if old(self).seq_tracker == u32::MAX { 0 } else { (old(self).seq_tracker + 1) as u32 }),
            final(self).seq_tracker == id,
            final(self).hw == (SupernovaHardware { doorbell: id, ..old(self).hw }),
            final(self).is_initialized == old(self).is_initialized,
            final(self).mmio == old(self).mmio,
    {
        let id = self.seq_tracker.wrapping_add(1);
        self.seq_tracker = id;
        self.ring_doorbell(id);
        id
    }

    /// Synchronizes with the device without waiting for its completion register: rings
    /// the next sequence number and acknowledges it.
    pub fn synchronize(&mut self) -> (id: u32)
        ensures
            id == (if old(self).seq_tracker == u32::MAX { 0 } else { (old(self).seq_tracker + 1) as u32 }),
            final(self).seq_tracker == id,
            final(self).hw == (SupernovaHardware { doorbell: id, ack: id, ..old(self).hw }),
            final(self).is_initialized == old(self).is_initialized,
            final(self).mmio == old(self).mmio,
    {
        let id = self.begin_synchronize();
        self.ack_task(id);
        id
    }
}

} // verus!
