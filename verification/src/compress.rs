//! Page compression: a page is stored as all-zero, as one repeated byte, or raw,
//! and decoding gives the page back.
use vstd::prelude::*;

verus! {

pub const PAGE_BYTES: usize = 4096;
pub const MAX_ENCODED_PAGE_BYTES: usize = 4096;

#[derive(Copy, Clone, Debug, PartialEq, Eq, Structural)]
pub enum CompressionClass {
    Zero,
    Same,
    Sxrc,
    Raw,
}

/// An encoded page: its class and payload bytes.
pub struct EncodedPage {
    pub class: CompressionClass,
    pub payload: Vec<u8>,
}

impl EncodedPage {
    pub fn new(class: CompressionClass, payload: Vec<u8>) -> (e: Self)
        ensures
            e.class == class,
            e.payload@ == payload@,
    {
        EncodedPage { class, payload }
    }

    pub fn class(&self) -> (c: CompressionClass)
        ensures
            c == self.class,
    {
        self.class
    }

    pub fn payload(&self) -> (p: &[u8])
        ensures
            p@ == self.payload@,
    {
        self.payload.as_slice()
    }
}

#[derive(Copy, Clone, Debug, PartialEq, Eq, Structural)]
pub enum CompressionError {
    NotInitialized,
    OutputTooSmall,
    InvalidPayloadLength,
    UnsupportedClass,
}

impl CompressionError {
    pub fn as_str(self) -> (s: &'static str)
        ensures
            self == CompressionError::NotInitialized ==> s@ == "compression runtime is not initialized"@,
            self == CompressionError::OutputTooSmall ==> s@ == "encode output buffer is too small"@,
            self == CompressionError::InvalidPayloadLength ==> s@ == "encoded payload length is invalid"@,
            self == CompressionError::UnsupportedClass ==> s@ == "compression class is not supported by active backend"@,
    {
        match self {
            CompressionError::NotInitialized => "compression runtime is not initialized",
            CompressionError::OutputTooSmall => "encode output buffer is too small",
            CompressionError::InvalidPayloadLength => "encoded payload length is invalid",
            CompressionError::UnsupportedClass => "compression class is not supported by active backend",
        }
    }
}

#[derive(Copy, Clone, Debug)]
pub struct CompressionStats {
    pub encoded_pages: u64,
    pub decoded_pages: u64,
    pub zero_pages: u64,
    pub same_pages: u64,
    pub sxrc_pages: u64,
    pub raw_pages: u64,
    pub fallback_raw_pages: u64,
    pub encode_failures: u64,
    pub decode_failures: u64,
}

impl CompressionStats {
    pub open spec fn is_zero(&self) -> bool {
        self.encoded_pages == 0 && self.decoded_pages == 0 && self.zero_pages == 0 && self.same_pages == 0
            && self.sxrc_pages == 0 && self.raw_pages == 0 && self.fallback_raw_pages == 0
            && self.encode_failures == 0 && self.decode_failures == 0
    }

    pub fn zero() -> (s: Self)
        ensures
            s.is_zero(),
    {
        CompressionStats {
            encoded_pages: 0,
            decoded_pages: 0,
            zero_pages: 0,
            same_pages: 0,
            sxrc_pages: 0,
            raw_pages: 0,
            fallback_raw_pages: 0,
            encode_failures: 0,
            decode_failures: 0,
        }
    }
}

impl Default for CompressionStats {
    fn default() -> (s: Self)
        ensures
            s.is_zero(),
    {
        CompressionStats::zero()
    }
}

/// `x + 1`, saturating at `u64::MAX`.
pub open spec fn bump(x: u64) -> u64 {
    if x == u64::MAX { x } else { (x + 1) as u64 }
}

/// The class a page is encoded with.
pub open spec fn page_class(page: Seq<u8>) -> CompressionClass {
    if forall|i: int| 0 <= i < page.len() ==> #[trigger] page[i] == 0 {
        CompressionClass::Zero
    } else if forall|i: int| 0 <= i < page.len() ==> #[trigger] page[i] == page[0] {
        CompressionClass::Same
    } else {
        CompressionClass::Raw
    }
}

/// The payload a page is encoded to.
pub open spec fn page_payload(page: Seq<u8>) -> Seq<u8> {
    match page_class(page) {
        CompressionClass::Zero => Seq::empty(),
        CompressionClass::Same => seq![page[0]],
        _ => page,
    }
}

/// What decoding a payload of a class gives: the page, or the error.
pub open spec fn decoded(class: CompressionClass, payload: Seq<u8>) -> Result<Seq<u8>, CompressionError> {
    match class {
        CompressionClass::Zero => if payload.len() == 0 {
            Ok(Seq::new(PAGE_BYTES as nat, |i: int| 0u8))
        } else {
            Err(CompressionError::InvalidPayloadLength)
        },
        CompressionClass::Same => if payload.len() == 1 {
            Ok(Seq::new(PAGE_BYTES as nat, |i: int| payload[0]))
        } else {
            Err(CompressionError::InvalidPayloadLength)
        },
        CompressionClass::Raw => if payload.len() == PAGE_BYTES {
            Ok(payload)
        } else {
            Err(CompressionError::InvalidPayloadLength)
        },
        CompressionClass::Sxrc => Err(CompressionError::UnsupportedClass),
    }
}

/// Scratch space encoding a page needs.
pub open spec fn scratch_needed(page: Seq<u8>) -> int {
    match page_class(page) {
        CompressionClass::Zero => 0,
        CompressionClass::Same => 1,
        _ => PAGE_BYTES as int,
    }
}

/// Decoding what a page encodes to gives the page back.
pub proof fn lemma_encode_decode_roundtrip(page: Seq<u8>)
    requires
        page.len() == PAGE_BYTES,
    ensures
        decoded(page_class(page), page_payload(page)) == Ok::<Seq<u8>, CompressionError>(page),
{
    match page_class(page) {
        CompressionClass::Zero => {
            assert(Seq::new(PAGE_BYTES as nat, |i: int| 0u8) =~= page);
        },
        CompressionClass::Same => {
            assert(Seq::new(PAGE_BYTES as nat, |i: int| seq![page[0]][0]) =~= page);
        },
        _ => {},
    }
}

/// The build profile a backend is made for: its name, version and dictionary shape.
#[derive(Copy, Clone, Debug)]
pub struct SxrcProfile {
    pub name: &'static str,
    pub version: u32,
    pub compression_unit_bytes: usize,
    pub little_endian: bool,
    pub dynamic_patterns: bool,
    pub static_dictionary_entries: usize,
    pub static_pattern_entries: usize,
}

/// What a compression backend offers: names, and page encoding and decoding.
pub trait CompressionBackend {
    fn backend_name(&self) -> &'static str;

    fn profile_name(&self) -> &'static str;

    fn profile_version(&self) -> u32;

    fn encode_page(&mut self, page: &[u8], scratch: &mut [u8]) -> Result<EncodedPage, CompressionError>
        requires
            page@.len() == PAGE_BYTES,
    ;

    fn decode_page(&mut self, encoded: &EncodedPage, out: &mut [u8]) -> Result<(), CompressionError>
        requires
            old(out)@.len() == PAGE_BYTES,
    ;

    fn stats(&self) -> CompressionStats;
}

/// Stats after a failed encode.
pub open spec fn stats_encode_failed(s: CompressionStats) -> CompressionStats {
    CompressionStats { encoded_pages: bump(s.encoded_pages), encode_failures: bump(s.encode_failures), ..s }
}

/// Stats after a page of a class was encoded.
pub open spec fn stats_encoded(s: CompressionStats, class: CompressionClass) -> CompressionStats {
    match class {
        CompressionClass::Zero => CompressionStats {
            encoded_pages: bump(s.encoded_pages),
            zero_pages: bump(s.zero_pages),
            ..s
        },
        CompressionClass::Same => CompressionStats {
            encoded_pages: bump(s.encoded_pages),
            same_pages: bump(s.same_pages),
            ..s
        },
        _ => CompressionStats {
            encoded_pages: bump(s.encoded_pages),
            raw_pages: bump(s.raw_pages),
            fallback_raw_pages: bump(s.fallback_raw_pages),
            ..s
        },
    }
}

/// Stats after a decode that gave `ok`.
pub open spec fn stats_decoded(s: CompressionStats, ok: bool) -> CompressionStats {
    if ok {
        CompressionStats { decoded_pages: bump(s.decoded_pages), ..s }
    } else {
        CompressionStats { decode_failures: bump(s.decode_failures), ..s }
    }
}

/// What encoding a page gives, with a scratch area of `scratch_len` bytes.
pub open spec fn encode_result(page: Seq<u8>, scratch_len: int) -> Result<(CompressionClass, Seq<u8>), CompressionError> {
    if scratch_len < scratch_needed(page) {
        Err(CompressionError::OutputTooSmall)
    } else {
        Ok((page_class(page), page_payload(page)))
    }
}

/// The backend that encodes pages without a dictionary.
pub struct NullBackend {
    pub profile: SxrcProfile,
    pub stats: CompressionStats,
}

impl NullBackend {
    pub fn new(profile: SxrcProfile) -> (b: Self)
        ensures
            b.stats.is_zero(),
            b.profile == profile,
    {
        NullBackend { profile, stats: CompressionStats::zero() }
    }
}

impl CompressionBackend for NullBackend {
    fn backend_name(&self) -> (s: &'static str)
        ensures
            s@ == "null"@,
    {
        "null"
    }

    fn profile_name(&self) -> (s: &'static str)
        ensures
            s@ == self.profile.name@,
    {
        self.profile.name
    }

    fn profile_version(&self) -> (v: u32)
        ensures
            v == self.profile.version,
    {
        self.profile.version
    }

    /// Encodes a page, writing the payload into the front of `scratch` as well.
    fn encode_page(&mut self, page: &[u8], scratch: &mut [u8]) -> (r: Result<EncodedPage, CompressionError>)
        ensures
            final(self).profile == old(self).profile,
            final(scratch)@.len() == old(scratch)@.len(),
            match encode_result(page@, old(scratch)@.len() as int) {
                Ok((class, payload)) => {
                    &&& r matches Ok(e) && e.class == class && e.payload@ == payload
                    &&& final(scratch)@.subrange(0, payload.len() as int) == payload
                    &&& final(scratch)@.subrange(payload.len() as int, old(scratch)@.len() as int)
                        == old(scratch)@.subrange(payload.len() as int, old(scratch)@.len() as int)
                    &&& final(self).stats == stats_encoded(old(self).stats, class)
                },
                Err(err) => {
                    &&& r == Err::<EncodedPage, CompressionError>(err)
                    &&& final(scratch)@ == old(scratch)@
                    &&& final(self).stats == stats_encode_failed(old(self).stats)
                },
            },
    {
        let first = page[0];
        let mut is_zero = true;
        let mut is_same = true;
        let mut i: usize = 0;
        while i < page.len()
            invariant
                i <= page@.len(),
                page@.len() == PAGE_BYTES,
                first == page@[0],
                is_zero == forall|k: int| 0 <= k < i ==> page@[k] == 0,
                is_same == forall|k: int| 0 <= k < i ==> page@[k] == first,
            decreases page@.len() - i,
        {
            if page[i] != 0 {
                is_zero = false;
            }
            if page[i] != first {
                is_same = false;
            }
            i = i + 1;
        }
        self.stats.encoded_pages = self.stats.encoded_pages.saturating_add(1);
        if is_zero {
            self.stats.zero_pages = self.stats.zero_pages.saturating_add(1);
            assert(scratch@.subrange(0, 0) =~= Seq::<u8>::empty());
            assert(scratch@.subrange(0, scratch@.len() as int) =~= old(scratch)@.subrange(0, scratch@.len() as int));
            return Ok(EncodedPage { class: CompressionClass::Zero, payload: Vec::new() });
        }
        if is_same {
            if scratch.len() == 0 {
                self.stats.encode_failures = self.stats.encode_failures.saturating_add(1);
                return Err(CompressionError::OutputTooSmall);
            }
            scratch[0] = first;
            self.stats.same_pages = self.stats.same_pages.saturating_add(1);
            let mut payload: Vec<u8> = Vec::new();
            payload.push(first);
            assert(payload@ =~= seq![page@[0]]);
            assert(scratch@.subrange(0, 1) =~= seq![page@[0]]);
            assert(scratch@.subrange(1, scratch@.len() as int) =~= old(scratch)@.subrange(1, scratch@.len() as int));
            return Ok(EncodedPage { class: CompressionClass::Same, payload });
        }
        if scratch.len() < PAGE_BYTES {
            self.stats.encode_failures = self.stats.encode_failures.saturating_add(1);
            return Err(CompressionError::OutputTooSmall);
        }
        let mut payload: Vec<u8> = Vec::new();
        let mut j: usize = 0;
        while j < PAGE_BYTES
            invariant
                j <= PAGE_BYTES,
                page@.len() == PAGE_BYTES,
                scratch@.len() >= PAGE_BYTES,
                scratch@.len() == old(scratch)@.len(),
                payload@ == page@.subrange(0, j as int),
                scratch@.subrange(0, j as int) == page@.subrange(0, j as int),
                forall|k: int| j <= k < scratch@.len() ==> scratch@[k] == old(scratch)@[k],
            decreases PAGE_BYTES - j,
        {
            scratch[j] = page[j];
            payload.push(page[j]);
            j = j + 1;
            assert(payload@ =~= page@.subrange(0, j as int));
            assert(scratch@.subrange(0, j as int) =~= page@.subrange(0, j as int));
        }
        assert(page@.subrange(0, PAGE_BYTES as int) =~= page@);
        assert(scratch@.subrange(PAGE_BYTES as int, scratch@.len() as int) =~= old(scratch)@.subrange(
            PAGE_BYTES as int,
            scratch@.len() as int,
        ));
        self.stats.raw_pages = self.stats.raw_pages.saturating_add(1);
        self.stats.fallback_raw_pages = self.stats.fallback_raw_pages.saturating_add(1);
        Ok(EncodedPage { class: CompressionClass::Raw, payload })
    }

    /// Decodes a page into `out`.
    fn decode_page(&mut self, encoded: &EncodedPage, out: &mut [u8]) -> (r: Result<(), CompressionError>)
        ensures
            final(self).profile == old(self).profile,
            final(self).stats == stats_decoded(old(self).stats, r is Ok),
            match decoded(encoded.class, encoded.payload@) {
                Ok(p) => r is Ok && final(out)@ == p,
                Err(e) => r == Err::<(), CompressionError>(e) && final(out)@ == old(out)@,
            },
    {
        match encoded.class {
            CompressionClass::Zero => {
                if encoded.payload.len() != 0 {
                    self.stats.decode_failures = self.stats.decode_failures.saturating_add(1);
                    return Err(CompressionError::InvalidPayloadLength);
                }
                fill_bytes(out, 0);
            },
            CompressionClass::Same => {
                if encoded.payload.len() != 1 {
                    self.stats.decode_failures = self.stats.decode_failures.saturating_add(1);
                    return Err(CompressionError::InvalidPayloadLength);
                }
                fill_bytes(out, encoded.payload[0]);
            },
            CompressionClass::Raw => {
                if encoded.payload.len() != PAGE_BYTES {
                    self.stats.decode_failures = self.stats.decode_failures.saturating_add(1);
                    return Err(CompressionError::InvalidPayloadLength);
                }
                copy_bytes(out, encoded.payload.as_slice());
            },
            CompressionClass::Sxrc => {
                self.stats.decode_failures = self.stats.decode_failures.saturating_add(1);
                return Err(CompressionError::UnsupportedClass);
            },
        }
        self.stats.decoded_pages = self.stats.decoded_pages.saturating_add(1);
        Ok(())
    }

    fn stats(&self) -> (s: CompressionStats)
        ensures
            s == self.stats,
    {
        self.stats
    }
}

/// What the compression runtime reports of its backend and profile.
#[derive(Copy, Clone, Debug)]
pub struct CompressionRuntimeSummary {
    pub backend: &'static str,
    pub profile: &'static str,
    pub profile_version: u32,
    pub page_bytes: usize,
    pub compression_unit_bytes: usize,
    pub little_endian: bool,
    pub dynamic_patterns: bool,
    pub static_dictionary_entries: usize,
    pub static_pattern_entries: usize,
}

#[derive(Copy, Clone, Debug, PartialEq, Eq, Structural)]
pub enum CompressionInitError {
    AlreadyInitialized,
}

impl CompressionInitError {
    pub fn as_str(self) -> (s: &'static str)
        ensures
            s@ == "compression runtime is already initialized"@,
    {
        match self {
            CompressionInitError::AlreadyInitialized => "compression runtime is already initialized",
        }
    }
}

/// The summary a runtime with this backend reports.
pub open spec fn runtime_summary_of(b: NullBackend, s: CompressionRuntimeSummary) -> bool {
    &&& s.backend@ == "null"@
    &&& s.profile@ == b.profile.name@
    &&& s.profile_version == b.profile.version
    &&& s.page_bytes == PAGE_BYTES
    &&& s.compression_unit_bytes == b.profile.compression_unit_bytes
    &&& s.little_endian == b.profile.little_endian
    &&& s.dynamic_patterns == b.profile.dynamic_patterns
    &&& s.static_dictionary_entries == b.profile.static_dictionary_entries
    &&& s.static_pattern_entries == b.profile.static_pattern_entries
}

/// The compression runtime: a backend that works once initialized.
pub struct CompressionRuntime {
    pub initialized: bool,
    pub backend: NullBackend,
}

impl CompressionRuntime {
    pub fn new(profile: SxrcProfile) -> (r: Self)
        ensures
            !r.initialized,
            r.backend.stats.is_zero(),
            r.backend.profile == profile,
    {
        CompressionRuntime { initialized: false, backend: NullBackend::new(profile) }
    }

    pub fn initialize(&mut self) -> (r: Result<CompressionRuntimeSummary, CompressionInitError>)
        ensures
            final(self).backend == old(self).backend,
            final(self).initialized,
            old(self).initialized ==> r == Err::<CompressionRuntimeSummary, CompressionInitError>(
                CompressionInitError::AlreadyInitialized,
            ),
            !old(self).initialized ==> (r matches Ok(s) && runtime_summary_of(old(self).backend, s)),
    {
        if self.initialized {
            return Err(CompressionInitError::AlreadyInitialized);
        }
        self.initialized = true;
        Ok(self.summary())
    }

    pub fn summary(&self) -> (s: CompressionRuntimeSummary)
        ensures
            runtime_summary_of(self.backend, s),
    {
        CompressionRuntimeSummary {
            backend: self.backend.backend_name(),
            profile: self.backend.profile_name(),
            profile_version: self.backend.profile_version(),
            page_bytes: PAGE_BYTES,
            compression_unit_bytes: self.backend.profile.compression_unit_bytes,
            little_endian: self.backend.profile.little_endian,
            dynamic_patterns: self.backend.profile.dynamic_patterns,
            static_dictionary_entries: self.backend.profile.static_dictionary_entries,
            static_pattern_entries: self.backend.profile.static_pattern_entries,
        }
    }

    pub fn is_initialized(&self) -> (b: bool)
        ensures
            b == self.initialized,
    {
        self.initialized
    }

    /// Encodes a page with the backend; refused before initialization.
    pub fn encode_page(&mut self, page: &[u8], scratch: &mut [u8]) -> (r: Result<EncodedPage, CompressionError>)
        requires
            page@.len() == PAGE_BYTES,
        ensures
            final(self).initialized == old(self).initialized,
            final(self).backend.profile == old(self).backend.profile,
            final(scratch)@.len() == old(scratch)@.len(),
            !old(self).initialized ==> r == Err::<EncodedPage, CompressionError>(CompressionError::NotInitialized)
                && final(self).backend == old(self).backend && final(scratch)@ == old(scratch)@,
            old(self).initialized ==> match encode_result(page@, old(scratch)@.len() as int) {
                Ok((class, payload)) => {
                    &&& r matches Ok(e) && e.class == class && e.payload@ == payload
                    &&& final(scratch)@.subrange(0, payload.len() as int) == payload
                    &&& final(scratch)@.subrange(payload.len() as int, old(scratch)@.len() as int)
                        == old(scratch)@.subrange(payload.len() as int, old(scratch)@.len() as int)
                    &&& final(self).backend.stats == stats_encoded(old(self).backend.stats, class)
                },
                Err(err) => {
                    &&& r == Err::<EncodedPage, CompressionError>(err)
                    &&& final(scratch)@ == old(scratch)@
                    &&& final(self).backend.stats == stats_encode_failed(old(self).backend.stats)
                },
            },
    {
        if !self.initialized {
            return Err(CompressionError::NotInitialized);
        }
        self.backend.encode_page(page, scratch)
    }

    /// Decodes a page with the backend; refused before initialization.
    pub fn decode_page(&mut self, encoded: &EncodedPage, out: &mut [u8]) -> (r: Result<(), CompressionError>)
        requires
            old(out)@.len() == PAGE_BYTES,
        ensures
            final(self).initialized == old(self).initialized,
            final(self).backend.profile == old(self).backend.profile,
            !old(self).initialized ==> r == Err::<(), CompressionError>(CompressionError::NotInitialized)
                && final(self).backend == old(self).backend && final(out)@ == old(out)@,
            old(self).initialized ==> {
                &&& final(self).backend.stats == stats_decoded(old(self).backend.stats, r is Ok)
                &&& match decoded(encoded.class, encoded.payload@) {
                    Ok(p) => r is Ok && final(out)@ == p,
                    Err(e) => r == Err::<(), CompressionError>(e) && final(out)@ == old(out)@,
                }
            },
    {
        if !self.initialized {
            return Err(CompressionError::NotInitialized);
        }
        self.backend.decode_page(encoded, out)
    }

    pub fn stats(&self) -> (s: CompressionStats)
        ensures
            s == self.backend.stats,
    {
        self.backend.stats()
    }
}

/// Sets every byte of `out` to `value`.
pub fn fill_bytes(out: &mut [u8], value: u8)
    ensures
        final(out)@ == Seq::new(old(out)@.len(), |i: int| value),
{
    let mut i: usize = 0;
    while i < out.len()
        invariant
            i <= out@.len(),
            out@.len() == old(out)@.len(),
            forall|k: int| 0 <= k < i ==> out@[k] == value,
        decreases out@.len() - i,
    {
        out[i] = value;
        i = i + 1;
    }
    assert(out@ =~= Seq::new(old(out)@.len(), |i: int| value));
}

/// Copies `src` over `out`, which has the same length.
pub fn copy_bytes(out: &mut [u8], src: &[u8])
    requires
        old(out)@.len() == src@.len(),
    ensures
        final(out)@ == src@,
{
    let mut i: usize = 0;
    while i < out.len()
        invariant
            i <= out@.len(),
            out@.len() == src@.len(),
            forall|k: int| 0 <= k < i ==> out@[k] == src@[k],
        decreases out@.len() - i,
    {
        out[i] = src[i];
        i = i + 1;
    }
    assert(out@ =~= src@);
}

} // verus!
