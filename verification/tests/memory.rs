use hxnu::accel::{
    spe_stub_caps, spe_stub_probe, AccelCaps, AccelCompletion, AccelJobEnvelope, AccelState, AccelSubmitError,
    SPE_STUB_QUEUE_DEPTH,
};
use hxnu::compress::{
    CompressionClass, CompressionError, CompressionRuntime, EncodedPage, SxrcProfile, PAGE_BYTES,
};
use hxnu::hsched::{HardwareTask, HeterogeneousScheduler, WorkloadType};
use hxnu::store::{StoreError, StoreInitError, StoreState};

fn profile() -> SxrcProfile {
    SxrcProfile {
        name: "sxrc-test",
        version: 3,
        compression_unit_bytes: 4096,
        little_endian: true,
        dynamic_patterns: false,
        static_dictionary_entries: 16,
        static_pattern_entries: 8,
    }
}

fn runtime() -> CompressionRuntime {
    let mut r = CompressionRuntime::new(profile());
    assert!(r.initialize().is_ok());
    r
}

fn mixed_page() -> Vec<u8> {
    (0..PAGE_BYTES).map(|i| (i % 251) as u8).collect()
}

#[test]
fn pages_are_classified_and_round_trip() {
    let mut r = runtime();
    let mut scratch = vec![0u8; PAGE_BYTES];
    for page in [vec![0u8; PAGE_BYTES], vec![7u8; PAGE_BYTES], mixed_page()] {
        let e = r.encode_page(&page, &mut scratch).unwrap();
        let mut out = vec![0xAAu8; PAGE_BYTES];
        r.decode_page(&e, &mut out).unwrap();
        assert_eq!(out, page);
    }
    let zero = r.encode_page(&vec![0u8; PAGE_BYTES], &mut scratch).unwrap();
    assert!(zero.class() == CompressionClass::Zero);
    assert!(zero.payload().is_empty());
    let same = r.encode_page(&vec![7u8; PAGE_BYTES], &mut scratch).unwrap();
    assert!(same.class() == CompressionClass::Same);
    assert_eq!(same.payload(), &[7u8]);
    let raw = r.encode_page(&mixed_page(), &mut scratch).unwrap();
    assert!(raw.class() == CompressionClass::Raw);
    assert_eq!(raw.payload(), mixed_page().as_slice());
    let s = r.stats();
    assert_eq!(s.encoded_pages, 6);
    assert_eq!(s.zero_pages, 2);
    assert_eq!(s.same_pages, 2);
    assert_eq!(s.raw_pages, 2);
    assert_eq!(s.decoded_pages, 3);
}

#[test]
fn compression_errors() {
    let mut cold = CompressionRuntime::new(profile());
    let mut scratch = vec![0u8; PAGE_BYTES];
    assert!(cold.encode_page(&vec![0u8; PAGE_BYTES], &mut scratch).err() == Some(CompressionError::NotInitialized));
    let mut r = runtime();
    let mut small = vec![0u8; 16];
    assert!(r.encode_page(&mixed_page(), &mut small).err() == Some(CompressionError::OutputTooSmall));
    assert_eq!(r.stats().encode_failures, 1);
    let mut out = vec![0u8; PAGE_BYTES];
    let bad = EncodedPage::new(CompressionClass::Same, vec![1, 2]);
    assert!(r.decode_page(&bad, &mut out).err() == Some(CompressionError::InvalidPayloadLength));
    let sxrc = EncodedPage::new(CompressionClass::Sxrc, vec![]);
    assert!(r.decode_page(&sxrc, &mut out).err() == Some(CompressionError::UnsupportedClass));
    assert_eq!(r.stats().decode_failures, 2);
    assert!(r.initialize().is_err());
    assert_eq!(CompressionError::OutputTooSmall.as_str(), "encode output buffer is too small");
}

#[test]
fn store_loads_what_was_stored() {
    let mut r = runtime();
    let mut store = StoreState::new();
    assert!(store.initialize(&r).is_ok());
    let page = mixed_page();
    let entry = store.store_page(&mut r, 42, &page).unwrap();
    assert_eq!(entry.page_id, 42);
    assert!(entry.class == CompressionClass::Raw);
    store.store_page(&mut r, 7, &vec![9u8; PAGE_BYTES]).unwrap();
    let mut out = vec![0u8; PAGE_BYTES];
    let loaded = store.load_page(&mut r, 42, &mut out).unwrap();
    assert_eq!(loaded.page_id, 42);
    assert_eq!(out, page);
    store.load_page(&mut r, 7, &mut out).unwrap();
    assert_eq!(out, vec![9u8; PAGE_BYTES]);
    assert!(store.load_page(&mut r, 8, &mut out).err() == Some(StoreError::NotFound));
    store.store_page(&mut r, 42, &vec![0u8; PAGE_BYTES]).unwrap();
    store.load_page(&mut r, 42, &mut out).unwrap();
    assert_eq!(out, vec![0u8; PAGE_BYTES]);
}

#[test]
fn store_errors() {
    let cold_runtime = CompressionRuntime::new(profile());
    let mut store = StoreState::new();
    assert!(store.initialize(&cold_runtime).err() == Some(StoreInitError::CompressionRuntimeUnavailable));
    let mut r = runtime();
    let mut out = vec![0u8; PAGE_BYTES];
    assert!(store.load_page(&mut r, 1, &mut out).err() == Some(StoreError::NotInitialized));
    assert!(store.initialize(&r).is_ok());
    assert!(store.initialize(&r).err() == Some(StoreInitError::AlreadyInitialized));
    let mut cold = CompressionRuntime::new(profile());
    assert!(
        store.store_page(&mut cold, 1, &mixed_page()).err()
            == Some(StoreError::Encode(CompressionError::NotInitialized))
    );
    assert_eq!(StoreError::NotFound.as_str(), "page id is not present in compressed store");
}

#[test]
fn hardware_tasks_decode_from_their_encoding() {
    let t = HardwareTask { id: 0x1234_5678, target: 2 };
    let v = t.encode();
    assert_eq!(v, 0x8000_0002_1234_5678);
    assert!(HardwareTask::decode(v) == Some(t));
    assert!(HardwareTask::decode(0x0000_0002_1234_5678).is_none());
    assert!(HardwareTask { id: 1, target: 1 }.is_gpu_task());
    assert!(!t.is_gpu_task());
}

#[test]
fn scheduler_ring_words_and_drain() {
    let mut s = HeterogeneousScheduler::new();
    assert_eq!(s.submit_workload(WorkloadType::CpuAvx512), Ok(1));
    assert_eq!(s.submit_workload(WorkloadType::GpuCompute), Ok(2));
    assert_eq!(s.shared_buffer.head, 0);
    assert_eq!(s.shared_buffer.tail, 2);
    assert_eq!(s.shared_buffer.buffer[0].data, 0x8000_0000_0000_0001);
    assert_eq!(s.shared_buffer.buffer[1].data, 0x8000_0001_0000_0002);
    assert_eq!(s.shared_buffer.buffer[0].sequence, 1);
    assert_eq!(s.shared_buffer.buffer[1].sequence, 2);
    s.dispatch_pending();
    assert_eq!(s.shared_buffer.head, 2);
    assert_eq!(s.shared_buffer.tail, 2);
    assert_eq!(s.shared_buffer.buffer[0].sequence, 16);
    assert_eq!(s.shared_buffer.buffer[1].sequence, 17);
    assert_eq!(s.shared_buffer.buffer[2].sequence, 2);
    let words: Vec<(usize, u64)> = s.shared_buffer.buffer.iter().map(|n| (n.sequence, n.data)).collect();
    s.dispatch_pending();
    let again: Vec<(usize, u64)> = s.shared_buffer.buffer.iter().map(|n| (n.sequence, n.data)).collect();
    assert_eq!(words, again);
    assert_eq!(s.shared_buffer.head, 2);
}

#[test]
fn scheduler_full_queue_keeps_ring() {
    let mut s = HeterogeneousScheduler::new();
    for i in 0..16u32 {
        assert_eq!(s.submit_workload(WorkloadType::DirectTarget(0)), Ok(i + 1));
    }
    let words: Vec<(usize, u64)> = s.shared_buffer.buffer.iter().map(|n| (n.sequence, n.data)).collect();
    let tail = s.shared_buffer.tail;
    assert_eq!(s.submit_workload(WorkloadType::CpuAvx512), Err("Task queue is full"));
    let after: Vec<(usize, u64)> = s.shared_buffer.buffer.iter().map(|n| (n.sequence, n.data)).collect();
    assert_eq!(words, after);
    assert_eq!(s.shared_buffer.tail, tail);
    s.dispatch_pending();
    assert_eq!(s.submit_workload(WorkloadType::CpuAvx512), Ok(18));
    for _ in 0..15 {
        assert!(s.submit_workload(WorkloadType::GpuCompute).is_ok());
    }
}

#[test]
fn scheduler_queue_takes_sixteen() {
    let mut s = HeterogeneousScheduler::new();
    for i in 0..16u32 {
        let w = if i % 2 == 0 { WorkloadType::CpuAvx512 } else { WorkloadType::DirectTarget(2) };
        assert_eq!(s.submit_workload(w), Ok(i + 1));
    }
    assert_eq!(s.submit_workload(WorkloadType::GpuCompute), Err("Task queue is full"));
    assert_eq!(s.next_id, 18);
}

fn job(id: u64) -> AccelJobEnvelope {
    AccelJobEnvelope { job_id: id, code_address: 0x1000, code_length: 64, data_address: 0x2000, data_length: 128, flags: 0 }
}

#[test]
fn accelerator_queue() {
    assert!(spe_stub_probe());
    assert!(spe_stub_caps() == AccelCaps { mailbox: true, dma: true, queue_depth: SPE_STUB_QUEUE_DEPTH as u16 });
    let mut a = AccelState::new();
    assert!(a.submit(job(1)).err() == Some(AccelSubmitError::NotInitialized));
    assert!(a.initialize().is_ok());
    assert!(a.initialize().is_err());
    assert!(a.submit(job(0)).err() == Some(AccelSubmitError::InvalidJob));
    for id in 1..=SPE_STUB_QUEUE_DEPTH as u64 {
        assert!(a.submit(job(id)).is_ok());
    }
    assert!(a.submit(job(99)).err() == Some(AccelSubmitError::QueueFull));
    assert!(a.cancel(2));
    assert!(!a.cancel(2));
    assert!(a.poll_complete() == Some(AccelCompletion { job_id: 1, status: 0 }));
    assert!(a.poll_complete() == Some(AccelCompletion { job_id: 3, status: 0 }));
    let s = a.summary();
    assert_eq!(s.completed_jobs, 2);
    assert_eq!(s.canceled_jobs, 1);
    assert_eq!(s.pending_jobs, SPE_STUB_QUEUE_DEPTH - 3);
}
