use hxnu::secinter::{compute_entropy, fnv1a_32, generate_syscall_entropy_id, FNV_OFFSET_BASIS};

#[test]
fn test_entropy_zero() {
    let args = [0u64; 6];
    let id = generate_syscall_entropy_id(42, 0, &args);
    let entropy = (id >> 32) & 0xFFFF;
    assert_eq!(entropy, 0, "Entropy of all zeros should be 0");
}

#[test]
fn test_entropy_ones() {
    let args = [u64::MAX; 6];
    let id = generate_syscall_entropy_id(42, u64::MAX, &args);
    let entropy = (id >> 32) & 0xFFFF;
    assert_eq!(entropy, 0, "Entropy of all ones should be 0");
}

#[test]
fn test_entropy_half_split() {
    let mut data = [0u8; 56];
    for i in 0..28 {
        data[i] = 0;
    }
    for i in 28..56 {
        data[i] = 255;
    }
    let entropy = compute_entropy(&data);
    assert_eq!(entropy, 1024, "Entropy of 50-50 split should be exactly 1024 (1 bit)");
}

#[test]
fn test_fnv1a_empty() {
    assert_eq!(fnv1a_32(&[]), FNV_OFFSET_BASIS);
}

#[test]
fn fnv1a_known_vector() {
    // FNV-1a 32-bit of "a" is 0xe40c292c.
    assert_eq!(fnv1a_32(b"a"), 0xe40c_292c);
}

#[test]
fn entropy_id_packs_thread_and_hash() {
    let args = [1u64, 2, 3, 4, 5, 6];
    let id = generate_syscall_entropy_id(0x1_2345, 7, &args);
    assert_eq!(id >> 48, 0x2345);
    let mut payload = Vec::new();
    for v in [7u64, 1, 2, 3, 4, 5, 6] {
        payload.extend_from_slice(&v.to_le_bytes());
    }
    assert_eq!(id & 0xFFFF_FFFF, fnv1a_32(&payload) as u64);
    assert_eq!((id >> 32) & 0xFFFF, compute_entropy(&payload) as u64);
}

#[test]
fn entropy_of_distinct_bytes() {
    // Four distinct bytes: log2(4) = 2 bits = 2048.
    assert_eq!(compute_entropy(&[1, 2, 3, 4]), 2048);
    assert_eq!(compute_entropy(&[]), 0);
}
