//! The heterogeneous scheduler: workloads become hardware tasks, encoded into one word,
//! and queue in a sixteen-slot ring whose slots carry sequence numbers.
use vstd::prelude::*;
use crate::supernova::SxrcPayload;

verus! {

pub const RING_SLOTS: usize = 16;

/// An abstract task: its id and the kind of work.
pub struct AsymmetricTask {
    pub id: u32,
    pub workload_type: WorkloadType,
}

/// A task for one hardware lane (0 = CPU, 1 = GPU, 2 = NPU).
#[derive(Copy, Clone, Debug, PartialEq, Eq, Structural)]
pub struct HardwareTask {
    pub id: u32,
    pub target: u8,
}

/// The word a task is encoded as: the valid bit 63, the lane in bits 32..40, the id below.
pub open spec fn encoded(id: u32, target: u8) -> u64 {
    0x8000_0000_0000_0000u64 | ((target as u64) << 32u64) | (id as u64)
}

/// The task a word decodes to, when its valid bit is set.
pub open spec fn decoded_task(val: u64) -> Option<HardwareTask> {
    if val & 0x8000_0000_0000_0000u64 == 0 {
        None
    } else {
        Some(HardwareTask { id: (val & 0xFFFF_FFFFu64) as u32, target: ((val >> 32u64) & 0xFFu64) as u8 })
    }
}

impl HardwareTask {
    pub fn encode(&self) -> (v: u64)
        ensures
            v == encoded(self.id, self.target),
    {
        let valid: u64 = 0x8000_0000_0000_0000u64;
        let tgt: u64 = (self.target as u64) << 32u64;
        valid | tgt | (self.id as u64)
    }

    pub fn decode(val: u64) -> (r: Option<HardwareTask>)
        ensures
            r == decoded_task(val),
    {
        if val & 0x8000_0000_0000_0000u64 == 0 {
            None
        } else {
            Some(HardwareTask { id: (val & 0xFFFF_FFFFu64) as u32, target: ((val >> 32u64) & 0xFFu64) as u8 })
        }
    }

    pub fn is_gpu_task(&self) -> (b: bool)
        ensures
            b == (self.target == 1),
    {
        self.target == 1
    }
}

/// A task decodes back from its encoding.
pub proof fn lemma_decode_encode(id: u32, target: u8)
    ensures
        decoded_task(encoded(id, target)) == Some(HardwareTask { id, target }),
{
    let v = encoded(id, target);
    assert(v & 0x8000_0000_0000_0000u64 != 0) by (bit_vector)
        requires
            v == 0x8000_0000_0000_0000u64 | ((target as u64) << 32u64) | (id as u64),
    ;
    assert((v & 0xFFFF_FFFFu64) as u32 == id) by (bit_vector)
        requires
            v == 0x8000_0000_0000_0000u64 | ((target as u64) << 32u64) | (id as u64),
    ;
    assert(((v >> 32u64) & 0xFFu64) as u8 == target) by (bit_vector)
        requires
            v == 0x8000_0000_0000_0000u64 | ((target as u64) << 32u64) | (id as u64),
    ;
}

/// What a workload asks for.
#[derive(Copy, Clone, Debug)]
pub enum WorkloadType {
    CpuAvx512,
    GpuCompute,
    Sxrc(SxrcPayload),
    DirectTarget(u8),
}

/// The lane a workload runs on.
pub open spec fn workload_target(w: WorkloadType) -> u8 {
    match w {
        WorkloadType::CpuAvx512 => 0,
        WorkloadType::GpuCompute => 1,
        WorkloadType::Sxrc(_) => 1,
        WorkloadType::DirectTarget(t) => t,
    }
}

/// One slot of the ring: its sequence number and its word.
#[derive(Copy, Clone, Debug)]
pub struct Node {
    pub sequence: usize,
    pub data: u64,
}

/// The ring: sixteen slots and the positions of the next read and the next write.
pub struct SharedRingBuffer {
    pub buffer: Vec<Node>,
    pub head: usize,
    pub tail: usize,
}

/// The number of positions a `usize` counts through.
pub open spec fn modulus() -> int {
    usize::MAX + 1
}

/// Position `a` advanced by `k`, wrapping.
pub open spec fn wadd(a: usize, k: int) -> int {
    (a + k) % modulus()
}

proof fn lemma_modulus()
    ensures
        modulus() % 16 == 0,
        modulus() > 0x1_0000,
{
    vstd::layout::unsigned_int_max_values();
    vstd::arithmetic::power2::lemma2_to64();
    assert(usize::BITS == 32 || usize::BITS == 64);
    assert(usize::MAX == 0xffff_ffff || usize::MAX == 0xffff_ffff_ffff_ffff);
}

/// Slot index of position `a + k`.
proof fn lemma_slot_index(a: usize, k: int)
    requires
        k >= 0,
    ensures
        wadd(a, k) % 16 == (a % 16 + k) % 16,
        0 <= wadd(a, k) < modulus(),
{
    lemma_modulus();
    let m = modulus();
    assert(m == 16 * (m / 16));
    vstd::arithmetic::div_mod::lemma_mod_mod(a + k, 16, m / 16);
    vstd::arithmetic::div_mod::lemma_add_mod_noop(a as int, k, 16);
    vstd::arithmetic::div_mod::lemma_mod_mod(k, 16, 1);
    assert(k % 16 % 16 == k % 16);
    vstd::arithmetic::div_mod::lemma_add_mod_noop(a as int, k % 16, 16);
    vstd::arithmetic::div_mod::lemma_add_mod_noop_right(a as int % 16, k, 16);
}

impl SharedRingBuffer {
    /// The number of queued words.
    pub open spec fn count(&self) -> int {
        (self.tail - self.head) % modulus()
    }

    /// The slot holding the `k`-th position from the head.
    pub open spec fn slot(&self, k: int) -> Node {
        self.buffer@[(self.head % 16 + k) % 16]
    }

    pub open spec fn wf(&self) -> bool {
        &&& self.buffer@.len() == RING_SLOTS
        &&& 0 <= self.count() <= 16
        &&& forall|k: int| 0 <= k < 16 ==> (#[trigger] self.slot(k)).sequence == if k < self.count() {
            wadd(self.head, k + 1)
        } else {
            wadd(self.head, k)
        }
    }

    /// The queued words, oldest first.
    pub open spec fn view(&self) -> Seq<u64> {
        Seq::new(self.count() as nat, |k: int| self.slot(k).data)
    }
}

/// The offset from the head at which slot `j` holds a position.
pub open spec fn offset_of(head: usize, j: int) -> int {
    (j - head % 16 + 16) % 16
}

/// The slots after the first `d` positions from `head` were taken: each of those slots
/// keeps its word and its sequence moves sixteen positions on; the rest are unchanged.
pub open spec fn drained_buffer(b: Seq<Node>, head: usize, d: int) -> Seq<Node> {
    Seq::new(
        b.len(),
        |j: int|
            if offset_of(head, j) < d {
                Node { sequence: wadd(head, offset_of(head, j) + 16) as usize, data: b[j].data }
            } else {
                b[j]
            },
    )
}

proof fn lemma_drain_step(b: Seq<Node>, head: usize, d: int, index: int)
    requires
        b.len() == 16,
        0 <= d < 16,
        index == (head % 16 + d) % 16,
    ensures
        0 <= index < 16,
        drained_buffer(b, head, d)[index] == b[index],
        drained_buffer(b, head, d).update(
            index,
            Node { sequence: wadd(head, d + 16) as usize, data: b[index].data },
        ) == drained_buffer(b, head, d + 1),
{
    assert(offset_of(head, index) == d);
    assert forall|j: int| 0 <= j < 16 && j != index implies offset_of(head, j) != d by {}
    assert(drained_buffer(b, head, d).update(index, Node { sequence: wadd(head, d + 16) as usize, data: b[index].data })
        =~= drained_buffer(b, head, d + 1));
}

/// The scheduler: the next task id and the shared queue.
pub struct HeterogeneousScheduler {
    pub next_id: u32,
    pub shared_buffer: SharedRingBuffer,
}

impl HeterogeneousScheduler {
    pub open spec fn wf(&self) -> bool {
        self.shared_buffer.wf()
    }

    pub fn new() -> (s: Self)
        ensures
            s.wf(),
            s.next_id == 1,
            s.shared_buffer.view() == Seq::<u64>::empty(),
            s.shared_buffer.head == 0 && s.shared_buffer.tail == 0,
            s.shared_buffer.buffer@.len() == RING_SLOTS,
            forall|k: int| 0 <= k < RING_SLOTS ==> #[trigger] s.shared_buffer.buffer@[k] == (Node { sequence: k as usize, data: 0 }),
    {
        let mut buffer: Vec<Node> = Vec::new();
        let mut i: usize = 0;
        while i < RING_SLOTS
            invariant
                i <= RING_SLOTS,
                buffer@.len() == i,
                forall|k: int| 0 <= k < i ==> (#[trigger] buffer@[k]).sequence == k && buffer@[k].data == 0,
            decreases RING_SLOTS - i,
        {
            buffer.push(Node { sequence: i, data: 0 });
            i = i + 1;
        }
        let s = HeterogeneousScheduler { next_id: 1, shared_buffer: SharedRingBuffer { buffer, head: 0, tail: 0 } };
        proof {
            lemma_modulus();
            assert forall|k: int| 0 <= k < 16 implies (#[trigger] s.shared_buffer.slot(k)).sequence == wadd(0, k) by {
                assert((0usize % 16 + k) % 16 == k);
                assert(wadd(0, k) == k);
            }
            assert(s.shared_buffer.view() =~= Seq::<u64>::empty());
        }
        s
    }

    /// Hardware drivers are loaded separately; nothing to do here.
    pub fn init(&self) {
    }

    /// Turns a workload into a hardware task with the next id and queues it; the id is used
    /// up even when the queue is full.
    #[verifier::spinoff_prover]
    #[verifier::rlimit(60)]
    pub fn submit_workload(&mut self, workload: WorkloadType) -> (r: Result<u32, &'static str>)
        requires
            old(self).wf(),
        ensures
            final(self).wf(),
            final(self).next_id == (if old(self).next_id == u32::MAX { 0 } else { (old(self).next_id + 1) as u32 }),
            old(self).shared_buffer.view().len() < 16 ==> r == Ok::<u32, &'static str>(old(self).next_id)
                && final(self).shared_buffer.view() == old(self).shared_buffer.view().push(
                encoded(old(self).next_id, workload_target(workload)),
            ),
            old(self).shared_buffer.view().len() == 16 ==> (r matches Err(msg) && msg@ == "Task queue is full"@)
                && final(self).shared_buffer.view() == old(self).shared_buffer.view(),
            old(self).shared_buffer.view().len() < 16 ==> {
                let ob = old(self).shared_buffer;
                let new_tail = wadd(ob.tail, 1) as usize;
                &&& final(self).shared_buffer.head == ob.head
                &&& final(self).shared_buffer.tail == new_tail
                &&& final(self).shared_buffer.buffer@ == ob.buffer@.update(
                    (ob.tail % 16) as int,
                    Node { sequence: new_tail, data: encoded(old(self).next_id, workload_target(workload)) },
                )
            },
            old(self).shared_buffer.view().len() == 16 ==> final(self).shared_buffer.head == old(self).shared_buffer.head
                && final(self).shared_buffer.tail == old(self).shared_buffer.tail && final(self).shared_buffer.buffer@
                == old(self).shared_buffer.buffer@,
    {
        let task_id = self.next_id;
        self.next_id = self.next_id.wrapping_add(1);
        let target: u8 = match workload {
            WorkloadType::CpuAvx512 => 0,
            WorkloadType::GpuCompute => 1,
            WorkloadType::Sxrc(_) => 1,
            WorkloadType::DirectTarget(t) => t,
        };
        let hw_task = HardwareTask { id: task_id, target };
        let ghost q = self.shared_buffer.view();
        let ghost n = self.shared_buffer.count();
        let head = self.shared_buffer.head;
        let pos = self.shared_buffer.tail;
        let index = pos % RING_SLOTS;
        let seq = self.shared_buffer.buffer[index].sequence;
        let dif = seq.wrapping_sub(pos);
        proof {
            lemma_modulus();
            assert(pos == wadd(head, n)) by {
                vstd::arithmetic::div_mod::lemma_add_mod_noop_right(head as int, pos - head, modulus());
                vstd::arithmetic::div_mod::lemma_small_mod(pos as nat, modulus() as nat);
            }
            lemma_slot_index(head, n);
        }
        if dif == 0 {
            proof {
                assert(n < 16) by {
                    if n == 16 {
                        lemma_slot_index(head, 1);
                        assert(self.shared_buffer.slot(0).sequence == wadd(head, 1));
                        assert((head % 16 + 16) % 16 == (head % 16 + 0) % 16);
                        assert(index == (head % 16 + 0) % 16);
                        assert(seq == wadd(head, 1));
                        assert(false);
                    }
                }
            }
            let ghost before = self.shared_buffer;
            let new_tail = pos.wrapping_add(1);
            proof {
                lemma_wrap_add(pos, 1);
                lemma_wadd_shift2(head, n, 1);
            }
            self.shared_buffer.tail = new_tail;
            let payload = hw_task.encode();
            self.shared_buffer.buffer.set(index, Node { sequence: new_tail, data: payload });
            proof {
                let sb = self.shared_buffer;
                lemma_slot_index(head, n + 1);
                assert(new_tail == wadd(head, n + 1));
                assert(sb.count() == n + 1) by {
                    vstd::arithmetic::div_mod::lemma_fundamental_div_mod(pos - head, modulus());
                }
                assert forall|k: int| 0 <= k < 16 implies (#[trigger] sb.slot(k)).sequence == if k < sb.count() {
                    wadd(sb.head, k + 1)
                } else {
                    wadd(sb.head, k)
                } by {
                    if k == n {
                        assert((head % 16 + k) % 16 == index);
                    } else {
                        lemma_distinct_slots(head, k, n);
                        assert(sb.slot(k) == before.slot(k));
                    }
                }
                assert forall|k: int| 0 <= k < n implies sb.slot(k) == before.slot(k) by {
                    lemma_distinct_slots(head, k, n);
                }
                assert(sb.view() =~= q.push(encoded(task_id, target)));
                assert(target == workload_target(workload));
            }
            Ok(task_id)
        } else if dif > isize::MAX as usize {
            proof {
                assert(n == 16) by {
                    if n < 16 {
                        assert(self.shared_buffer.slot(n).sequence == wadd(head, n));
                    }
                }
            }
            Err("Task queue is full")
        } else {
            proof {
                if n < 16 {
                    assert(self.shared_buffer.slot(n).sequence == wadd(head, n));
                } else {
                    lemma_slot_index(head, 1);
                    assert(self.shared_buffer.slot(0).sequence == wadd(head, 1));
                    assert((head % 16 + 16) % 16 == (head % 16 + 0) % 16);
                }
            }
            Err("Task queue is full")
        }
    }

    /// Takes every queued task off the ring, oldest first.
    #[verifier::spinoff_prover]
    #[verifier::rlimit(60)]
    pub fn dispatch_pending(&mut self)
        requires
            old(self).wf(),
        ensures
            final(self).wf(),
            final(self).next_id == old(self).next_id,
            final(self).shared_buffer.view() == Seq::<u64>::empty(),
            final(self).shared_buffer.tail == old(self).shared_buffer.tail,
            final(self).shared_buffer.head == final(self).shared_buffer.tail,
            final(self).shared_buffer.buffer@ == drained_buffer(
                old(self).shared_buffer.buffer@,
                old(self).shared_buffer.head,
                old(self).shared_buffer.count(),
            ),
            old(self).shared_buffer.count() == 0 ==> final(self).shared_buffer.head == old(self).shared_buffer.head
                && final(self).shared_buffer.buffer@ == old(self).shared_buffer.buffer@,
    {
        let ghost ob = self.shared_buffer;
        let ghost mut d: int = 0;
        proof {
            lemma_modulus();
            vstd::arithmetic::div_mod::lemma_small_mod(ob.head as nat, modulus() as nat);
            assert(drained_buffer(ob.buffer@, ob.head, 0) =~= ob.buffer@);
        }
        let mut done = false;
        while !done
            invariant
                self.wf(),
                self.next_id == old(self).next_id,
                done ==> self.shared_buffer.view() == Seq::<u64>::empty(),
                ob == old(self).shared_buffer,
                ob.wf(),
                0 <= d <= ob.count(),
                self.shared_buffer.head == wadd(ob.head, d),
                self.shared_buffer.tail == ob.tail,
                self.shared_buffer.count() == ob.count() - d,
                self.shared_buffer.buffer@ == drained_buffer(ob.buffer@, ob.head, d),
            decreases self.shared_buffer.count() + (if done { 0int } else { 1 }),
        {
            let ghost n = self.shared_buffer.count();
            let pos = self.shared_buffer.head;
            let index = pos % RING_SLOTS;
            let seq = self.shared_buffer.buffer[index].sequence;
            let next = pos.wrapping_add(1);
            let dif = seq.wrapping_sub(next);
            proof {
                lemma_wrap_add(pos, 1);
                lemma_modulus();
                lemma_slot_index(pos, 0);
                assert(index == (pos % 16 + 0) % 16);
            }
            if dif == 0 {
                proof {
                    assert(n > 0) by {
                        if n == 0 {
                            assert(self.shared_buffer.slot(0).sequence == wadd(pos, 0));
                        }
                    }
                }
                let ghost before = self.shared_buffer;
                let val = self.shared_buffer.buffer[index].data;
                let new_head = pos.wrapping_add(1);
                let new_seq = pos.wrapping_add(RING_SLOTS);
                proof {
                    lemma_wrap_add(pos, 1);
                    lemma_wrap_add(pos, 16);
                }
                self.shared_buffer.head = new_head;
                self.shared_buffer.buffer.set(index, Node { sequence: new_seq, data: val });
                proof {
                    lemma_slot_index(ob.head, d);
                    lemma_wadd_shift2(ob.head, d, 1);
                    lemma_wadd_shift2(ob.head, d, 16);
                    lemma_drain_step(ob.buffer@, ob.head, d, index as int);
                    d = d + 1;
                }
                if let Some(task) = HardwareTask::decode(val) {
                    if task.is_gpu_task() {
                    }
                }
                proof {
                    let sb = self.shared_buffer;
                    let tail = sb.tail;
                    lemma_slot_index(pos, 1);
                    lemma_slot_index(pos, 16);
                    assert(new_head == wadd(pos, 1));
                    assert(new_seq == wadd(pos, 16));
                    assert(sb.count() == n - 1) by {
                        vstd::arithmetic::div_mod::lemma_fundamental_div_mod(tail - pos, modulus());
                        vstd::arithmetic::div_mod::lemma_fundamental_div_mod(tail - new_head, modulus());
                    }
                    assert forall|k: int| 0 <= k < 16 implies (#[trigger] sb.slot(k)).sequence == if k < sb.count() {
                        wadd(sb.head, k + 1)
                    } else {
                        wadd(sb.head, k)
                    } by {
                        lemma_slot_index(pos, k + 1);
                        lemma_slot_index(pos, k + 2);
                        lemma_wadd_shift(pos, k);
                        lemma_wadd_shift(pos, k + 1);
                        assert((new_head % 16 + k) % 16 == (pos % 16 + k + 1) % 16);
                        if k == 15 {
                            assert((pos % 16 + 16) % 16 == index);
                        } else {
                            lemma_distinct_slots(pos, k + 1, 0);
                            assert(sb.slot(k) == before.slot(k + 1));
                        }
                    }
                }
            } else {
                proof {
                    if n > 0 {
                        assert(self.shared_buffer.slot(0).sequence == wadd(pos, 1));
                    }
                    assert(self.shared_buffer.view() =~= Seq::<u64>::empty());
                }
                done = true;
            }
        }
    }
}

/// The wrapping sum of two positions is their sum modulo the position range.
proof fn lemma_wrap_add(x: usize, y: usize)
    ensures
        (if x + y > usize::MAX { x + y - modulus() } else { x + y }) == wadd(x, y as int),
{
    lemma_modulus();
    if x + y > usize::MAX {
        vstd::arithmetic::div_mod::lemma_small_mod((x + y - modulus()) as nat, modulus() as nat);
        vstd::arithmetic::div_mod::lemma_mod_add_multiples_vanish(x + y - modulus(), modulus());
    } else {
        vstd::arithmetic::div_mod::lemma_small_mod((x + y) as nat, modulus() as nat);
    }
}

/// Distinct offsets below sixteen name distinct slots.
proof fn lemma_distinct_slots(a: usize, j: int, k: int)
    requires
        0 <= j < 16,
        0 <= k < 16,
        j != k,
    ensures
        (a % 16 + j) % 16 != (a % 16 + k) % 16,
{
}

/// Advancing a position by `j` and then by `k` advances it by `j + k`.
proof fn lemma_wadd_shift2(a: usize, j: int, k: int)
    requires
        j >= 0,
        k >= 0,
    ensures
        wadd(wadd(a, j) as usize, k) == wadd(a, j + k),
{
    lemma_modulus();
    let m = modulus();
    vstd::arithmetic::div_mod::lemma_add_mod_noop(a + j, k, m);
    vstd::arithmetic::div_mod::lemma_add_mod_noop(wadd(a, j), k, m);
    assert(wadd(a, j) % m == wadd(a, j)) by {
        vstd::arithmetic::div_mod::lemma_mod_mod(a + j, m, 1);
    }
}

/// Advancing a position twice is advancing it once by the sum.
proof fn lemma_wadd_shift(a: usize, k: int)
    requires
        k >= 0,
    ensures
        wadd(wadd(a, 1) as usize, k) == wadd(a, k + 1),
{
    lemma_modulus();
    vstd::arithmetic::div_mod::lemma_add_mod_noop(a + 1, k, modulus());
    vstd::arithmetic::div_mod::lemma_mod_mod(k, modulus(), 1);
    vstd::arithmetic::div_mod::lemma_add_mod_noop_right(a + 1, k, modulus());
    vstd::arithmetic::div_mod::lemma_add_mod_noop((a + 1) as int, k, modulus());
}

} // verus!
