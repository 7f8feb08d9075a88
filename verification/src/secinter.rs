//! Entropy-inclusive syscall identifiers.
//!
//! A syscall's number and arguments are laid out as a 56-byte payload; the
//! identifier packs the calling thread (16 bits), a fixed-point Shannon
//! entropy score of the payload (16 bits) and its FNV-1a hash (32 bits).
use vstd::prelude::*;

verus! {

pub const FNV_PRIME: u32 = 16777619;
pub const FNV_OFFSET_BASIS: u32 = 2166136261;

/// `c * log2(c) * 1024`, rounded, for `c` in `0..=64`.
pub open spec fn c_log_c_table() -> Seq<u32> {
    seq![
        0u32, 0, 2048, 4869, 8192, 11888, 15882, 20123, 24576, 29214, 34017, 38967, 44052,
        49260, 54582, 60010, 65536, 71155, 76860, 82648, 88513, 94452, 100462, 106539,
        112680, 118883, 125145, 131463, 137836, 144263, 150740, 157266, 163840, 170460,
        177125, 183834, 190584, 197376, 204207, 211078, 217986, 224931, 231913, 238929,
        245980, 253065, 260182, 267331, 274512, 281724, 288965, 296237, 303537, 310866,
        318222, 325606, 333017, 340454, 347917, 355406, 362919, 370458, 378020, 385606,
        393216
    ]
}

/// Table entry for a count, counts above 64 using the entry for 64.
pub open spec fn c_log_c(count: int) -> int {
    if count >= 64 { c_log_c_table()[64] as int } else { c_log_c_table()[count] as int }
}

/// Looks up the `c * log2(c)` table.
fn c_log_c_lookup(index: usize) -> (r: u32)
    requires
        index <= 64,
    ensures
        r as int == c_log_c(index as int),
        r <= 393216,
{
    let table: [u32; 65] = [
        0, 0, 2048, 4869, 8192, 11888, 15882, 20123, 24576, 29214, 34017, 38967, 44052,
        49260, 54582, 60010, 65536, 71155, 76860, 82648, 88513, 94452, 100462, 106539,
        112680, 118883, 125145, 131463, 137836, 144263, 150740, 157266, 163840, 170460,
        177125, 183834, 190584, 197376, 204207, 211078, 217986, 224931, 231913, 238929,
        245980, 253065, 260182, 267331, 274512, 281724, 288965, 296237, 303537, 310866,
        318222, 325606, 333017, 340454, 347917, 355406, 362919, 370458, 378020, 385606,
        393216,
    ];
    assert(table@ =~= c_log_c_table());
    table[index]
}

/// The FNV-1a hash of a byte sequence.
pub open spec fn fnv1a(s: Seq<u8>) -> u32
    decreases s.len(),
{
    if s.len() == 0 {
        FNV_OFFSET_BASIS
    } else {
        vstd::wrapping::u32_specs::wrapping_mul(fnv1a(s.drop_last()) ^ (s.last() as u32), FNV_PRIME)
    }
}

/// Computes a 32-bit FNV-1a hash of the given data.
pub fn fnv1a_32(data: &[u8]) -> (hash: u32)
    ensures
        hash == fnv1a(data@),
{
    let mut hash = FNV_OFFSET_BASIS;
    let mut i: usize = 0;
    while i < data.len()
        invariant
            i <= data@.len(),
            hash == fnv1a(data@.take(i as int)),
        decreases data@.len() - i,
    {
        assert(data@.take(i as int + 1).drop_last() =~= data@.take(i as int));
        hash = (hash ^ data[i] as u32).wrapping_mul(FNV_PRIME);
        i = i + 1;
    }
    assert(data@.take(data@.len() as int) =~= data@);
    hash
}

/// Number of occurrences of `b` in `s`.
pub open spec fn occurrences(s: Seq<u8>, b: u8) -> nat
    decreases s.len(),
{
    if s.len() == 0 {
        0
    } else {
        occurrences(s.drop_last(), b) + if s.last() == b { 1nat } else { 0nat }
    }
}

/// Sum of the table entries of the non-zero occurrence counts of the byte values below `k`.
pub open spec fn sum_c_log_c(s: Seq<u8>, k: int) -> int
    decreases k,
{
    if k <= 0 {
        0
    } else {
        sum_c_log_c(s, k - 1) + if occurrences(s, (k - 1) as u8) > 0 {
            c_log_c(occurrences(s, (k - 1) as u8) as int)
        } else {
            0
        }
    }
}

/// The scaled entropy before truncation to 16 bits:
/// `(c_log_c(n) - sum c_log_c(count_b)) / n`, the subtraction saturating at zero.
pub open spec fn entropy_value(s: Seq<u8>) -> int {
    if s.len() == 0 {
        0
    } else {
        let total = c_log_c(s.len() as int);
        let sum = sum_c_log_c(s, 256);
        (if total >= sum { total - sum } else { 0 }) / (s.len() as int)
    }
}

proof fn lemma_occurrences_prefix(s: Seq<u8>, i: int, b: u8)
    requires
        0 <= i <= s.len(),
    ensures
        occurrences(s.take(i), b) <= occurrences(s, b),
    decreases s.len() - i,
{
    if i < s.len() {
        lemma_occurrences_prefix(s, i + 1, b);
        assert(s.take(i + 1).drop_last() =~= s.take(i));
    } else {
        assert(s.take(i) =~= s);
    }
}

proof fn lemma_sum_bound(s: Seq<u8>, k: int)
    requires
        0 <= k,
    ensures
        0 <= sum_c_log_c(s, k) <= k * 393216,
    decreases k,
{
    if k > 0 {
        lemma_sum_bound(s, k - 1);
    }
}

/// Computes the scaled Shannon entropy of the given data.
pub fn compute_entropy(data: &[u8]) -> (r: u16)
    requires
        forall|b: u8| occurrences(data@, b) <= 255,
    ensures
        r == entropy_value(data@) as u16,
{
    let mut counts: Vec<u8> = Vec::new();
    let mut k: usize = 0;
    while k < 256
        invariant
            k <= 256,
            counts@.len() == k,
            forall|j: int| 0 <= j < k ==> counts@[j] == 0,
        decreases 256 - k,
    {
        counts.push(0);
        k = k + 1;
    }
    let mut i: usize = 0;
    while i < data.len()
        invariant
            i <= data@.len(),
            counts@.len() == 256,
            forall|b: u8| occurrences(data@, b) <= 255,
            forall|j: int| 0 <= j < 256 ==> counts@[j] as nat == occurrences(data@.take(i as int), j as u8),
        decreases data@.len() - i,
    {
        let byte = data[i];
        proof {
            assert(data@.take(i as int + 1).drop_last() =~= data@.take(i as int));
            lemma_occurrences_prefix(data@, i as int + 1, byte);
        }
        let c = counts[byte as usize];
        counts.set(byte as usize, c + 1);
        i = i + 1;
        proof {
            assert forall|j: int| 0 <= j < 256 implies counts@[j] as nat == occurrences(data@.take(i as int), j as u8) by {
                assert(data@.take(i as int).drop_last() =~= data@.take(i as int - 1));
                if j != byte as int {
                    assert(j as u8 != byte);
                }
            }
        }
    }
    assert(data@.take(data@.len() as int) =~= data@);

    let total_len = data.len();
    let mut sum: u32 = 0;
    let mut b: usize = 0;
    while b < 256
        invariant
            b <= 256,
            counts@.len() == 256,
            forall|j: int| 0 <= j < 256 ==> counts@[j] as nat == occurrences(data@, j as u8),
            sum as int == sum_c_log_c(data@, b as int),
        decreases 256 - b,
    {
        proof {
            lemma_sum_bound(data@, b as int);
        }
        let count = counts[b];
        if count > 0 {
            let v = c_log_c_lookup(if count as usize >= 64 { 64 } else { count as usize });
            sum = sum + v;
        }
        b = b + 1;
    }

    let total_log_total = c_log_c_lookup(if total_len >= 64 { 64 } else { total_len });
    if total_len > 0 {
        let diff = total_log_total.saturating_sub(sum);
        let h_scaled = (diff as usize) / total_len;
        h_scaled as u16
    } else {
        0
    }
}

} // verus!

verus! {

/// The eight bytes of `x`, least significant first (the x86_64 native order).
pub open spec fn u64_bytes(x: u64) -> Seq<u8> {
    Seq::new(8, |k: int| (x >> ((8 * k) as u64)) as u8)
}

/// The bytes of the first `i` arguments, in order.
pub open spec fn args_bytes(args: Seq<u64>, i: int) -> Seq<u8>
    decreases i,
{
    if i <= 0 {
        Seq::empty()
    } else {
        args_bytes(args, i - 1) + u64_bytes(args[i - 1])
    }
}

/// The 56-byte payload: the syscall number followed by the six arguments.
pub open spec fn syscall_payload(number: u64, args: Seq<u64>) -> Seq<u8> {
    u64_bytes(number) + args_bytes(args, 6)
}

/// The identifier: thread id (low 16 bits) | entropy score | FNV-1a hash.
pub open spec fn syscall_entropy_id(thread_id: u64, number: u64, args: Seq<u64>) -> int {
    let payload = syscall_payload(number, args);
    (thread_id as u16) as int * 0x1_0000_0000_0000 + (entropy_value(payload) as u16) as int
        * 0x1_0000_0000 + fnv1a(payload) as int
}

/// The identifier splits back into its three fields: the thread id's low 16 bits in the
/// top 16 bits, the entropy score in the next 16, and the FNV-1a hash of the payload in the
/// low 32. Equal thread ids, numbers and arguments therefore give equal identifiers.
pub proof fn lemma_entropy_id_fields(thread_id: u64, number: u64, args: Seq<u64>)
    ensures
        ({
            let id = syscall_entropy_id(thread_id, number, args);
            let payload = syscall_payload(number, args);
            &&& 0 <= id <= u64::MAX
            &&& id / 0x1_0000_0000_0000 == (thread_id as u16) as int
            &&& (id / 0x1_0000_0000) % 0x1_0000 == (entropy_value(payload) as u16) as int
            &&& id % 0x1_0000_0000 == fnv1a(payload) as int
        }),
{
    let payload = syscall_payload(number, args);
    let t = (thread_id as u16) as int;
    let e = (entropy_value(payload) as u16) as int;
    let f = fnv1a(payload) as int;
    assert({
        let id = t * 0x1_0000_0000_0000 + e * 0x1_0000_0000 + f;
        &&& 0 <= id <= u64::MAX
        &&& id / 0x1_0000_0000_0000 == t
        &&& (id / 0x1_0000_0000) % 0x1_0000 == e
        &&& id % 0x1_0000_0000 == f
    }) by (nonlinear_arith)
        requires
            0 <= t < 0x1_0000,
            0 <= e < 0x1_0000,
            0 <= f < 0x1_0000_0000,
    ;
}

proof fn lemma_occurrences_len(s: Seq<u8>, b: u8)
    ensures
        occurrences(s, b) <= s.len(),
    decreases s.len(),
{
    if s.len() > 0 {
        lemma_occurrences_len(s.drop_last(), b);
    }
}

fn push_u64_bytes(payload: &mut Vec<u8>, x: u64)
    ensures
        final(payload)@ == old(payload)@ + u64_bytes(x),
{
    let ghost start = payload@;
    let mut k: u64 = 0;
    while k < 8
        invariant
            k <= 8,
            payload@ == start + u64_bytes(x).take(k as int),
        decreases 8 - k,
    {
        payload.push((x >> (8 * k)) as u8);
        k = k + 1;
        assert(u64_bytes(x).take(k as int) =~= u64_bytes(x).take(k as int - 1).push(
            u64_bytes(x)[k as int - 1],
        ));
        assert(payload@ =~= start + u64_bytes(x).take(k as int));
    }
    assert(u64_bytes(x).take(8) =~= u64_bytes(x));
}

/// Builds the 64-bit entropy-inclusive identifier of a syscall issued by `thread_id`.
pub fn generate_syscall_entropy_id(thread_id: u64, number: u64, args: &[u64; 6]) -> (id: u64)
    ensures
        id as int == syscall_entropy_id(thread_id, number, args@),
{
    let mut payload: Vec<u8> = Vec::new();
    push_u64_bytes(&mut payload, number);
    assert(payload@ =~= u64_bytes(number) + args_bytes(args@, 0));
    let mut i: usize = 0;
    while i < 6
        invariant
            i <= 6,
            args@.len() == 6,
            payload@ == u64_bytes(number) + args_bytes(args@, i as int),
            payload@.len() == 8 + 8 * i,
        decreases 6 - i,
    {
        push_u64_bytes(&mut payload, args[i]);
        i = i + 1;
        assert(payload@ =~= u64_bytes(number) + args_bytes(args@, i as int));
    }
    assert(payload@ =~= syscall_payload(number, args@));
    proof {
        assert forall|b: u8| occurrences(payload@, b) <= 255 by {
            lemma_occurrences_len(payload@, b);
        }
    }
    let entropy_score = compute_entropy(payload.as_slice());
    let hash = fnv1a_32(payload.as_slice());
    let tid = thread_id as u16;
    let id = ((tid as u64) << 48) | ((entropy_score as u64) << 32) | (hash as u64);
    assert(((tid as u64) << 48) | ((entropy_score as u64) << 32) | (hash as u64)
        == (tid as u64) * 0x1_0000_0000_0000u64 + (entropy_score as u64) * 0x1_0000_0000u64 + hash as u64)
        by (bit_vector);
    id
}

} // verus!
