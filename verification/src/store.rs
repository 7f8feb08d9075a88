//! The compressed page store: a fixed number of slots that hold encoded pages by id,
//! evicting round-robin when full.
use vstd::prelude::*;
use crate::compress::{
    bump, decoded, encode_result, page_class, page_payload, lemma_encode_decode_roundtrip,
    CompressionClass, CompressionError, CompressionRuntime, EncodedPage, MAX_ENCODED_PAGE_BYTES, PAGE_BYTES,
};

verus! {

pub const STORE_CAPACITY_PAGES: usize = 64;
pub const STORE_CAPACITY_BYTES: usize = 262144;

#[derive(Copy, Clone, Debug)]
pub struct StoreSummary {
    pub capacity_pages: usize,
    pub capacity_bytes: usize,
    pub page_bytes: usize,
    pub max_encoded_page_bytes: usize,
}

#[derive(Copy, Clone, Debug, PartialEq, Eq, Structural)]
pub enum StoreInitError {
    AlreadyInitialized,
    CompressionRuntimeUnavailable,
}

impl StoreInitError {
    pub fn as_str(self) -> (s: &'static str)
        ensures
            self == StoreInitError::AlreadyInitialized ==> s@ == "compression store is already initialized"@,
            self == StoreInitError::CompressionRuntimeUnavailable ==> s@
                == "compression runtime must be initialized before store"@,
    {
        match self {
            StoreInitError::AlreadyInitialized => "compression store is already initialized",
            StoreInitError::CompressionRuntimeUnavailable => "compression runtime must be initialized before store",
        }
    }
}

#[derive(Copy, Clone, Debug, PartialEq, Eq, Structural)]
pub enum StoreError {
    NotInitialized,
    NotFound,
    Encode(CompressionError),
    Decode(CompressionError),
}

impl StoreError {
    pub fn as_str(self) -> (s: &'static str)
        ensures
            self == StoreError::NotInitialized ==> s@ == "compression store is not initialized"@,
            self == StoreError::NotFound ==> s@ == "page id is not present in compressed store"@,
            forall|e: CompressionError| self == StoreError::Encode(e) || self == StoreError::Decode(e) ==> {
                &&& e == CompressionError::NotInitialized ==> s@ == "compression runtime is not initialized"@
                &&& e == CompressionError::OutputTooSmall ==> s@ == "encode output buffer is too small"@
                &&& e == CompressionError::InvalidPayloadLength ==> s@ == "encoded payload length is invalid"@
                &&& e == CompressionError::UnsupportedClass ==> s@
                    == "compression class is not supported by active backend"@
            },
    {
        match self {
            StoreError::NotInitialized => "compression store is not initialized",
            StoreError::NotFound => "page id is not present in compressed store",
            StoreError::Encode(error) => error.as_str(),
            StoreError::Decode(error) => error.as_str(),
        }
    }
}

#[derive(Copy, Clone, Debug, PartialEq, Eq, Structural)]
pub struct StoreEntry {
    pub page_id: u64,
    pub class: CompressionClass,
    pub encoded_bytes: usize,
}

#[derive(Copy, Clone, Debug)]
pub struct StoreStats {
    pub capacity_pages: usize,
    pub capacity_bytes: usize,
    pub stored_pages: u64,
    pub stored_zero_pages: u64,
    pub stored_same_pages: u64,
    pub stored_sxrc_pages: u64,
    pub stored_raw_pages: u64,
    pub current_encoded_bytes: u64,
    pub total_input_bytes: u64,
    pub total_encoded_bytes: u64,
    pub store_requests: u64,
    pub store_successes: u64,
    pub load_requests: u64,
    pub load_successes: u64,
    pub load_misses: u64,
    pub replacements: u64,
    pub evictions: u64,
    pub encode_failures: u64,
    pub decode_failures: u64,
}

impl StoreStats {
    pub open spec fn is_fresh(&self) -> bool {
        &&& self.capacity_pages == STORE_CAPACITY_PAGES
        &&& self.capacity_bytes == STORE_CAPACITY_BYTES
        &&& self.stored_pages == 0 && self.stored_zero_pages == 0 && self.stored_same_pages == 0
        &&& self.stored_sxrc_pages == 0 && self.stored_raw_pages == 0 && self.current_encoded_bytes == 0
        &&& self.total_input_bytes == 0 && self.total_encoded_bytes == 0 && self.store_requests == 0
        &&& self.store_successes == 0 && self.load_requests == 0 && self.load_successes == 0
        &&& self.load_misses == 0 && self.replacements == 0 && self.evictions == 0
        &&& self.encode_failures == 0 && self.decode_failures == 0
    }

    pub fn new() -> (s: Self)
        ensures
            s.is_fresh(),
    {
        StoreStats {
            capacity_pages: STORE_CAPACITY_PAGES,
            capacity_bytes: STORE_CAPACITY_BYTES,
            stored_pages: 0,
            stored_zero_pages: 0,
            stored_same_pages: 0,
            stored_sxrc_pages: 0,
            stored_raw_pages: 0,
            current_encoded_bytes: 0,
            total_input_bytes: 0,
            total_encoded_bytes: 0,
            store_requests: 0,
            store_successes: 0,
            load_requests: 0,
            load_successes: 0,
            load_misses: 0,
            replacements: 0,
            evictions: 0,
            encode_failures: 0,
            decode_failures: 0,
        }
    }
}

/// `x + n`, saturating at `u64::MAX`.
pub open spec fn sat_add(x: u64, n: int) -> u64 {
    if x + n > u64::MAX { u64::MAX } else { (x + n) as u64 }
}

/// `x - n`, saturating at zero.
pub open spec fn sat_sub(x: u64, n: int) -> u64 {
    if x - n < 0 { 0 } else { (x - n) as u64 }
}

/// Stats after a page of a class and encoded length was added.
pub open spec fn stats_added(s: StoreStats, class: CompressionClass, len: int) -> StoreStats {
    let s1 = StoreStats { current_encoded_bytes: sat_add(s.current_encoded_bytes, len), ..s };
    match class {
        CompressionClass::Zero => StoreStats { stored_zero_pages: bump(s1.stored_zero_pages), ..s1 },
        CompressionClass::Same => StoreStats { stored_same_pages: bump(s1.stored_same_pages), ..s1 },
        CompressionClass::Sxrc => StoreStats { stored_sxrc_pages: bump(s1.stored_sxrc_pages), ..s1 },
        CompressionClass::Raw => StoreStats { stored_raw_pages: bump(s1.stored_raw_pages), ..s1 },
    }
}

/// Stats after a page of a class and encoded length was removed.
pub open spec fn stats_removed(s: StoreStats, class: CompressionClass, len: int) -> StoreStats {
    let s1 = StoreStats { current_encoded_bytes: sat_sub(s.current_encoded_bytes, len), ..s };
    match class {
        CompressionClass::Zero => StoreStats { stored_zero_pages: sat_sub(s1.stored_zero_pages, 1), ..s1 },
        CompressionClass::Same => StoreStats { stored_same_pages: sat_sub(s1.stored_same_pages, 1), ..s1 },
        CompressionClass::Sxrc => StoreStats { stored_sxrc_pages: sat_sub(s1.stored_sxrc_pages, 1), ..s1 },
        CompressionClass::Raw => StoreStats { stored_raw_pages: sat_sub(s1.stored_raw_pages, 1), ..s1 },
    }
}

/// A slot as the contracts see it.
pub ghost struct SlotView {
    pub occupied: bool,
    pub page_id: u64,
    pub class: CompressionClass,
    pub encoded: Seq<u8>,
}

/// One slot of the store.
pub struct StoreSlot {
    pub occupied: bool,
    pub page_id: u64,
    pub class: CompressionClass,
    pub encoded: Vec<u8>,
}

impl View for StoreSlot {
    type V = SlotView;

    open spec fn view(&self) -> SlotView {
        SlotView { occupied: self.occupied, page_id: self.page_id, class: self.class, encoded: self.encoded@ }
    }
}

impl StoreSlot {
    pub fn empty() -> (s: Self)
        ensures
            s@ == (SlotView { occupied: false, page_id: 0, class: CompressionClass::Raw, encoded: Seq::empty() }),
    {
        StoreSlot { occupied: false, page_id: 0, class: CompressionClass::Raw, encoded: Vec::new() }
    }
}

/// The first occupied slot at or after `from` that holds `id`.
pub open spec fn first_slot(v: Seq<SlotView>, id: u64, from: int) -> Option<int>
    decreases v.len() - from,
{
    if from < 0 || from >= v.len() {
        None
    } else if v[from].occupied && v[from].page_id == id {
        Some(from)
    } else {
        first_slot(v, id, from + 1)
    }
}

/// The first free slot at or after `from`.
pub open spec fn first_empty(v: Seq<SlotView>, from: int) -> Option<int>
    decreases v.len() - from,
{
    if from < 0 || from >= v.len() {
        None
    } else if !v[from].occupied {
        Some(from)
    } else {
        first_empty(v, from + 1)
    }
}

/// The slot that holds `id`, if any.
pub open spec fn lookup(v: Seq<SlotView>, id: u64) -> Option<SlotView> {
    match first_slot(v, id, 0) {
        Some(i) => Some(v[i]),
        None => None,
    }
}

/// What loading `id` from slots `v` with an initialized runtime gives.
pub open spec fn load_outcome(v: Seq<SlotView>, id: u64) -> Result<Seq<u8>, StoreError> {
    match lookup(v, id) {
        None => Err(StoreError::NotFound),
        Some(sv) => match decoded(sv.class, sv.encoded) {
            Ok(p) => Ok(p),
            Err(e) => Err(StoreError::Decode(e)),
        },
    }
}

/// The slot a page with `id` is written to: its own, else the first free one, else the
/// one next in eviction order.
pub open spec fn store_target(v: Seq<SlotView>, next_evict: int, id: u64) -> int {
    match first_slot(v, id, 0) {
        Some(i) => i,
        None => match first_empty(v, 0) {
            Some(i) => i,
            None => next_evict,
        },
    }
}

/// The slot a stored page becomes.
pub open spec fn stored_slot(id: u64, page: Seq<u8>) -> SlotView {
    SlotView { occupied: true, page_id: id, class: page_class(page), encoded: page_payload(page) }
}

proof fn lemma_first_slot_bounds(v: Seq<SlotView>, id: u64, from: int)
    ensures
        first_slot(v, id, from) matches Some(i) ==> from <= i < v.len() && v[i].occupied && v[i].page_id == id,
    decreases v.len() - from,
{
    if 0 <= from < v.len() && !(v[from].occupied && v[from].page_id == id) {
        lemma_first_slot_bounds(v, id, from + 1);
    }
}

proof fn lemma_first_empty_bounds(v: Seq<SlotView>, from: int)
    ensures
        first_empty(v, from) matches Some(i) ==> from <= i < v.len() && !v[i].occupied,
        first_empty(v, from) is None && 0 <= from ==> forall|k: int| from <= k < v.len() ==> #[trigger] v[k].occupied,
    decreases v.len() - from,
{
    if 0 <= from < v.len() && v[from].occupied {
        lemma_first_empty_bounds(v, from + 1);
    }
}

/// With no match for `id` before `t` and a match at `t`, the first match is `t`.
proof fn lemma_first_slot_at(v: Seq<SlotView>, id: u64, from: int, t: int)
    requires
        0 <= from <= t < v.len(),
        v[t].occupied && v[t].page_id == id,
        forall|k: int| from <= k < t ==> !(#[trigger] v[k].occupied && v[k].page_id == id),
    ensures
        first_slot(v, id, from) == Some(t),
    decreases t - from,
{
    if from < t {
        lemma_first_slot_at(v, id, from + 1, t);
    }
}

/// No match before `t` when the first match from `from` is `t` or none.
proof fn lemma_first_slot_none_before(v: Seq<SlotView>, id: u64, from: int, k: int)
    requires
        0 <= from <= k < v.len(),
        first_slot(v, id, from) is None || (first_slot(v, id, from) matches Some(t) && k < t),
    ensures
        !(v[k].occupied && v[k].page_id == id),
    decreases k - from,
{
    if from < k {
        lemma_first_slot_none_before(v, id, from + 1, k);
    }
}

/// A page stored under an id reads back as that page: after the store writes the page
/// into its target slot, loading the id decodes to the page.
pub proof fn lemma_load_after_store(v: Seq<SlotView>, next_evict: int, id: u64, page: Seq<u8>)
    requires
        page.len() == PAGE_BYTES,
        0 <= next_evict < v.len(),
    ensures
        load_outcome(v.update(store_target(v, next_evict, id), stored_slot(id, page)), id) == Ok::<
            Seq<u8>,
            StoreError,
        >(page),
{
    let t = store_target(v, next_evict, id);
    let w = v.update(t, stored_slot(id, page));
    lemma_first_slot_bounds(v, id, 0);
    lemma_first_empty_bounds(v, 0);
    assert(0 <= t < v.len());
    assert forall|k: int| 0 <= k < t implies !(#[trigger] w[k].occupied && w[k].page_id == id) by {
        lemma_first_slot_none_before(v, id, 0, k);
    }
    lemma_first_slot_at(w, id, 0, t);
    lemma_encode_decode_roundtrip(page);
}

/// Storing under one id keeps what another id reads, unless its slot was the one written.
pub proof fn lemma_store_keeps_others(v: Seq<SlotView>, next_evict: int, id: u64, other: u64, page: Seq<u8>)
    requires
        id != other,
        0 <= next_evict < v.len(),
        first_slot(v, other, 0) != Some(store_target(v, next_evict, id)),
    ensures
        lookup(v.update(store_target(v, next_evict, id), stored_slot(id, page)), other) == lookup(v, other),
{
    let t = store_target(v, next_evict, id);
    let w = v.update(t, stored_slot(id, page));
    lemma_first_slot_bounds(v, id, 0);
    lemma_first_empty_bounds(v, 0);
    lemma_first_slot_bounds(v, other, 0);
    match first_slot(v, other, 0) {
        Some(j) => {
            assert forall|k: int| 0 <= k < j implies !(#[trigger] w[k].occupied && w[k].page_id == other) by {
                lemma_first_slot_none_before(v, other, 0, k);
            }
            lemma_first_slot_at(w, other, 0, j);
        },
        None => {
            lemma_first_slot_same_none(v, w, other, 0, t);
        },
    }
}

proof fn lemma_first_slot_same_none(v: Seq<SlotView>, w: Seq<SlotView>, id: u64, from: int, t: int)
    requires
        0 <= from,
        first_slot(v, id, from) is None,
        w.len() == v.len(),
        forall|k: int| 0 <= k < v.len() && k != t ==> w[k] == v[k],
        0 <= t < v.len() ==> !(w[t].occupied && w[t].page_id == id),
    ensures
        first_slot(w, id, from) is None,
    decreases v.len() - from,
{
    if from < v.len() {
        lemma_first_slot_same_none(v, w, id, from + 1, t);
    }
}

/// Stats after a successful store of a page of `class` and encoded length `len`
/// into a slot that held `old_slot`.
pub open spec fn stats_after_store(
    s: StoreStats,
    old_slot: SlotView,
    replaced: bool,
    evicted: bool,
    class: CompressionClass,
    len: int,
) -> StoreStats {
    let s1 = StoreStats {
        store_requests: bump(s.store_requests),
        total_input_bytes: sat_add(s.total_input_bytes, PAGE_BYTES as int),
        ..s
    };
    let s2 = if replaced { StoreStats { replacements: bump(s1.replacements), ..s1 } } else { s1 };
    let s3 = if evicted { StoreStats { evictions: bump(s2.evictions), ..s2 } } else { s2 };
    let s4 = if old_slot.occupied {
        stats_removed(s3, old_slot.class, old_slot.encoded.len() as int)
    } else {
        StoreStats { stored_pages: bump(s3.stored_pages), ..s3 }
    };
    let s5 = stats_added(s4, class, len);
    StoreStats {
        store_successes: bump(s5.store_successes),
        total_encoded_bytes: sat_add(s5.total_encoded_bytes, len),
        ..s5
    }
}

/// The sum of `w` over the slots.
pub open spec fn slot_sum(v: Seq<SlotView>, w: spec_fn(SlotView) -> int) -> int
    decreases v.len(),
{
    if v.len() == 0 { 0 } else { slot_sum(v.drop_last(), w) + w(v.last()) }
}

/// One for an occupied slot.
pub open spec fn occupied_weight() -> spec_fn(SlotView) -> int {
    |x: SlotView| if x.occupied { 1int } else { 0int }
}

/// One for an occupied slot of `class`.
pub open spec fn class_weight(class: CompressionClass) -> spec_fn(SlotView) -> int {
    |x: SlotView| if x.occupied && x.class == class { 1int } else { 0int }
}

/// The encoded length of an occupied slot.
pub open spec fn bytes_weight() -> spec_fn(SlotView) -> int {
    |x: SlotView| if x.occupied { x.encoded.len() as int } else { 0int }
}

/// The counters of stored pages and encoded bytes agree with the slots: the page count and
/// each class count are the numbers of occupied slots (of that class), and the current
/// encoded bytes the sum of their encoded lengths.
pub open spec fn counters_match(s: StoreStats, v: Seq<SlotView>) -> bool {
    &&& s.stored_pages == slot_sum(v, occupied_weight())
    &&& s.stored_zero_pages == slot_sum(v, class_weight(CompressionClass::Zero))
    &&& s.stored_same_pages == slot_sum(v, class_weight(CompressionClass::Same))
    &&& s.stored_sxrc_pages == slot_sum(v, class_weight(CompressionClass::Sxrc))
    &&& s.stored_raw_pages == slot_sum(v, class_weight(CompressionClass::Raw))
    &&& s.current_encoded_bytes == slot_sum(v, bytes_weight())
}

proof fn lemma_slot_sum_update(v: Seq<SlotView>, w: spec_fn(SlotView) -> int, t: int, x: SlotView)
    requires
        0 <= t < v.len(),
    ensures
        slot_sum(v.update(t, x), w) == slot_sum(v, w) - w(v[t]) + w(x),
    decreases v.len(),
{
    let u = v.update(t, x);
    if t == v.len() - 1 {
        assert(u.drop_last() =~= v.drop_last());
    } else {
        assert(u.drop_last() =~= v.drop_last().update(t, x));
        lemma_slot_sum_update(v.drop_last(), w, t, x);
    }
}

proof fn lemma_slot_sum_bounds(v: Seq<SlotView>, w: spec_fn(SlotView) -> int, hi: int)
    requires
        0 <= hi,
        forall|x: SlotView| 0 <= #[trigger] w(x) <= hi,
    ensures
        0 <= slot_sum(v, w) <= v.len() * hi,
    decreases v.len(),
{
    if v.len() > 0 {
        lemma_slot_sum_bounds(v.drop_last(), w, hi);
        let _ = w(v.last());
        assert((v.len() - 1) * hi + hi == v.len() * hi) by (nonlinear_arith);
    }
}

proof fn lemma_slot_sum_empty(v: Seq<SlotView>, w: spec_fn(SlotView) -> int)
    requires
        forall|i: int| 0 <= i < v.len() ==> w(#[trigger] v[i]) == 0,
    ensures
        slot_sum(v, w) == 0,
    decreases v.len(),
{
    if v.len() > 0 {
        assert(w(v[v.len() - 1]) == 0);
        lemma_slot_sum_empty(v.drop_last(), w);
    }
}

/// With no slot occupied, fresh counters agree with the slots.
pub proof fn lemma_fresh_counters_match(s: StoreStats, v: Seq<SlotView>)
    requires
        s.is_fresh(),
        forall|i: int| 0 <= i < v.len() ==> !(#[trigger] v[i]).occupied,
    ensures
        counters_match(s, v),
{
    assert forall|i: int| 0 <= i < v.len() implies occupied_weight()(#[trigger] v[i]) == 0 by {}
    lemma_slot_sum_empty(v, occupied_weight());
    assert forall|i: int| 0 <= i < v.len() implies bytes_weight()(#[trigger] v[i]) == 0 by {}
    lemma_slot_sum_empty(v, bytes_weight());
    assert forall|i: int| 0 <= i < v.len() implies class_weight(CompressionClass::Zero)(#[trigger] v[i]) == 0 by {}
    lemma_slot_sum_empty(v, class_weight(CompressionClass::Zero));
    assert forall|i: int| 0 <= i < v.len() implies class_weight(CompressionClass::Same)(#[trigger] v[i]) == 0 by {}
    lemma_slot_sum_empty(v, class_weight(CompressionClass::Same));
    assert forall|i: int| 0 <= i < v.len() implies class_weight(CompressionClass::Sxrc)(#[trigger] v[i]) == 0 by {}
    lemma_slot_sum_empty(v, class_weight(CompressionClass::Sxrc));
    assert forall|i: int| 0 <= i < v.len() implies class_weight(CompressionClass::Raw)(#[trigger] v[i]) == 0 by {}
    lemma_slot_sum_empty(v, class_weight(CompressionClass::Raw));
}

proof fn lemma_counter_step(old_sum: int, w: spec_fn(SlotView) -> int, v: Seq<SlotView>, t: int, x: SlotView, hi: int)
    requires
        0 <= t < v.len() <= STORE_CAPACITY_PAGES,
        0 <= hi <= MAX_ENCODED_PAGE_BYTES,
        forall|y: SlotView| 0 <= #[trigger] w(y) <= hi && (!y.occupied ==> w(y) == 0),
        old_sum == slot_sum(v, w),
    ensures
        w(v[t]) <= old_sum <= STORE_CAPACITY_PAGES * MAX_ENCODED_PAGE_BYTES,
        slot_sum(v.update(t, x), w) == old_sum - w(v[t]) + w(x),
        0 <= slot_sum(v.update(t, x), w) <= STORE_CAPACITY_PAGES * MAX_ENCODED_PAGE_BYTES,
{
    lemma_slot_sum_update(v, w, t, x);
    lemma_slot_sum_update(v, w, t, SlotView { occupied: false, ..x });
    lemma_slot_sum_bounds(v.update(t, SlotView { occupied: false, ..x }), w, hi);
    lemma_slot_sum_bounds(v, w, hi);
    lemma_slot_sum_bounds(v.update(t, x), w, hi);
    assert(v.len() * hi <= STORE_CAPACITY_PAGES * MAX_ENCODED_PAGE_BYTES) by (nonlinear_arith)
        requires
            0 <= v.len() <= STORE_CAPACITY_PAGES,
            0 <= hi <= MAX_ENCODED_PAGE_BYTES,
    ;
    let _ = w(SlotView { occupied: false, ..x });
}

/// Putting an occupied slot `x` in place of slot `t` keeps the counters in agreement with
/// the slots, whatever the slot held before and whether the store replaced or evicted.
pub proof fn lemma_store_keeps_counters(
    s: StoreStats,
    v: Seq<SlotView>,
    t: int,
    x: SlotView,
    replaced: bool,
    evicted: bool,
)
    requires
        counters_match(s, v),
        v.len() == STORE_CAPACITY_PAGES,
        0 <= t < v.len(),
        forall|i: int| 0 <= i < v.len() ==> (#[trigger] v[i]).encoded.len() <= MAX_ENCODED_PAGE_BYTES,
        x.occupied,
        x.encoded.len() <= MAX_ENCODED_PAGE_BYTES,
    ensures
        counters_match(stats_after_store(s, v[t], replaced, evicted, x.class, x.encoded.len() as int), v.update(t, x)),
{
    let bw = bytes_weight();
    assert forall|y: SlotView| 0 <= #[trigger] occupied_weight()(y) <= 1 && (!y.occupied ==> occupied_weight()(y) == 0) by {}
    assert forall|y: SlotView| 0 <= #[trigger] class_weight(CompressionClass::Zero)(y) <= 1 && (!y.occupied ==> class_weight(CompressionClass::Zero)(y) == 0) by {}
    assert forall|y: SlotView| 0 <= #[trigger] class_weight(CompressionClass::Same)(y) <= 1 && (!y.occupied ==> class_weight(CompressionClass::Same)(y) == 0) by {}
    assert forall|y: SlotView| 0 <= #[trigger] class_weight(CompressionClass::Sxrc)(y) <= 1 && (!y.occupied ==> class_weight(CompressionClass::Sxrc)(y) == 0) by {}
    assert forall|y: SlotView| 0 <= #[trigger] class_weight(CompressionClass::Raw)(y) <= 1 && (!y.occupied ==> class_weight(CompressionClass::Raw)(y) == 0) by {}
    // Encoded lengths are bounded only for the slots and `x`, so the byte sum is bounded
    // through a weight capped at the limit, which agrees with it on them.
    let cw = |y: SlotView| if y.occupied { if y.encoded.len() <= MAX_ENCODED_PAGE_BYTES { y.encoded.len() as int } else { MAX_ENCODED_PAGE_BYTES as int } } else { 0int };
    assert forall|y: SlotView| 0 <= #[trigger] cw(y) <= MAX_ENCODED_PAGE_BYTES && (!y.occupied ==> cw(y) == 0) by {}
    lemma_slot_sum_agree(v, bw, cw);
    lemma_slot_sum_agree(v.update(t, x), bw, cw);
    lemma_counter_step(s.stored_pages as int, occupied_weight(), v, t, x, 1);
    lemma_counter_step(s.stored_zero_pages as int, class_weight(CompressionClass::Zero), v, t, x, 1);
    lemma_counter_step(s.stored_same_pages as int, class_weight(CompressionClass::Same), v, t, x, 1);
    lemma_counter_step(s.stored_sxrc_pages as int, class_weight(CompressionClass::Sxrc), v, t, x, 1);
    lemma_counter_step(s.stored_raw_pages as int, class_weight(CompressionClass::Raw), v, t, x, 1);
    lemma_counter_step(s.current_encoded_bytes as int, cw, v, t, x, MAX_ENCODED_PAGE_BYTES as int);
}

proof fn lemma_slot_sum_agree(v: Seq<SlotView>, a: spec_fn(SlotView) -> int, b: spec_fn(SlotView) -> int)
    requires
        forall|i: int| 0 <= i < v.len() ==> a(#[trigger] v[i]) == b(v[i]),
    ensures
        slot_sum(v, a) == slot_sum(v, b),
    decreases v.len(),
{
    if v.len() > 0 {
        assert(a(v[v.len() - 1]) == b(v[v.len() - 1]));
        lemma_slot_sum_agree(v.drop_last(), a, b);
    }
}

/// The compressed page store.
pub struct StoreState {
    pub initialized: bool,
    pub next_evict: usize,
    pub slots: Vec<StoreSlot>,
    pub stats: StoreStats,
}

impl StoreState {
    pub open spec fn slots_view(&self) -> Seq<SlotView> {
        self.slots@.map_values(|s: StoreSlot| s@)
    }

    /// The stored-page and encoded-byte counters agree with the slots.
    pub open spec fn counters_consistent(&self) -> bool {
        counters_match(self.stats, self.slots_view())
    }

    pub open spec fn wf(&self) -> bool {
        &&& self.slots@.len() == STORE_CAPACITY_PAGES
        &&& self.next_evict < STORE_CAPACITY_PAGES
        &&& forall|i: int| 0 <= i < self.slots@.len() ==> (#[trigger] self.slots@[i]).encoded@.len()
            <= MAX_ENCODED_PAGE_BYTES
    }

    pub fn new() -> (s: Self)
        ensures
            s.wf(),
            !s.initialized,
            s.next_evict == 0,
            s.stats.is_fresh(),
            forall|i: int| 0 <= i < STORE_CAPACITY_PAGES ==> !(#[trigger] s.slots_view()[i]).occupied,
            s.counters_consistent(),
    {
        let mut slots: Vec<StoreSlot> = Vec::new();
        let mut i: usize = 0;
        while i < STORE_CAPACITY_PAGES
            invariant
                i <= STORE_CAPACITY_PAGES,
                slots@.len() == i,
                forall|k: int| 0 <= k < i ==> !(#[trigger] slots@[k]).occupied && slots@[k].encoded@.len() == 0,
            decreases STORE_CAPACITY_PAGES - i,
        {
            slots.push(StoreSlot::empty());
            i = i + 1;
        }
        let s = StoreState { initialized: false, next_evict: 0, slots, stats: StoreStats::new() };
        proof {
            lemma_fresh_counters_match(s.stats, s.slots_view());
        }
        s
    }

    pub fn summary(&self) -> (s: StoreSummary)
        ensures
            s.capacity_pages == STORE_CAPACITY_PAGES,
            s.capacity_bytes == STORE_CAPACITY_BYTES,
            s.page_bytes == PAGE_BYTES,
            s.max_encoded_page_bytes == MAX_ENCODED_PAGE_BYTES,
    {
        StoreSummary {
            capacity_pages: STORE_CAPACITY_PAGES,
            capacity_bytes: STORE_CAPACITY_BYTES,
            page_bytes: PAGE_BYTES,
            max_encoded_page_bytes: MAX_ENCODED_PAGE_BYTES,
        }
    }

    pub fn is_initialized(&self) -> (b: bool)
        ensures
            b == self.initialized,
    {
        self.initialized
    }

    /// Initializes the store; the compression runtime must be up first.
    pub fn initialize(&mut self, runtime: &CompressionRuntime) -> (r: Result<StoreSummary, StoreInitError>)
        ensures
            final(self).slots@ == old(self).slots@,
            final(self).stats == old(self).stats,
            final(self).next_evict == old(self).next_evict,
            old(self).initialized ==> r == Err::<StoreSummary, StoreInitError>(StoreInitError::AlreadyInitialized)
                && final(self).initialized,
            !old(self).initialized && !runtime.initialized ==> r == Err::<StoreSummary, StoreInitError>(
                StoreInitError::CompressionRuntimeUnavailable,
            ) && !final(self).initialized,
            !old(self).initialized && runtime.initialized ==> r is Ok && final(self).initialized,
            r matches Ok(s) ==> s.capacity_pages == STORE_CAPACITY_PAGES && s.capacity_bytes == STORE_CAPACITY_BYTES
                && s.page_bytes == PAGE_BYTES && s.max_encoded_page_bytes == MAX_ENCODED_PAGE_BYTES,
            old(self).counters_consistent() ==> final(self).counters_consistent(),
    {
        if self.initialized {
            return Err(StoreInitError::AlreadyInitialized);
        }
        if !runtime.is_initialized() {
            return Err(StoreInitError::CompressionRuntimeUnavailable);
        }
        self.initialized = true;
        Ok(self.summary())
    }

    pub fn stats(&self) -> (s: StoreStats)
        ensures
            s == self.stats,
    {
        self.stats
    }

    fn account_added(&mut self, class: CompressionClass, encoded_len: usize)
        ensures
            final(self).stats == stats_added(old(self).stats, class, encoded_len as int),
            final(self).slots@ == old(self).slots@,
            final(self).initialized == old(self).initialized,
            final(self).next_evict == old(self).next_evict,
    {
        self.stats.current_encoded_bytes = self.stats.current_encoded_bytes.saturating_add(encoded_len as u64);
        match class {
            CompressionClass::Zero => {
                self.stats.stored_zero_pages = self.stats.stored_zero_pages.saturating_add(1);
            },
            CompressionClass::Same => {
                self.stats.stored_same_pages = self.stats.stored_same_pages.saturating_add(1);
            },
            CompressionClass::Sxrc => {
                self.stats.stored_sxrc_pages = self.stats.stored_sxrc_pages.saturating_add(1);
            },
            CompressionClass::Raw => {
                self.stats.stored_raw_pages = self.stats.stored_raw_pages.saturating_add(1);
            },
        }
    }

    fn account_removed(&mut self, class: CompressionClass, encoded_len: usize)
        ensures
            final(self).stats == stats_removed(old(self).stats, class, encoded_len as int),
            final(self).slots@ == old(self).slots@,
            final(self).initialized == old(self).initialized,
            final(self).next_evict == old(self).next_evict,
    {
        self.stats.current_encoded_bytes = self.stats.current_encoded_bytes.saturating_sub(encoded_len as u64);
        match class {
            CompressionClass::Zero => {
                self.stats.stored_zero_pages = self.stats.stored_zero_pages.saturating_sub(1);
            },
            CompressionClass::Same => {
                self.stats.stored_same_pages = self.stats.stored_same_pages.saturating_sub(1);
            },
            CompressionClass::Sxrc => {
                self.stats.stored_sxrc_pages = self.stats.stored_sxrc_pages.saturating_sub(1);
            },
            CompressionClass::Raw => {
                self.stats.stored_raw_pages = self.stats.stored_raw_pages.saturating_sub(1);
            },
        }
    }

    /// Encodes a page and keeps it under `page_id`, replacing what the id held, else
    /// taking a free slot, else evicting the slot next in round-robin order.
    pub fn store_page(&mut self, runtime: &mut CompressionRuntime, page_id: u64, page: &[u8]) -> (r: Result<
        StoreEntry,
        StoreError,
    >)
        requires
            old(self).wf(),
            page@.len() == PAGE_BYTES,
        ensures
            final(self).wf(),
            final(self).initialized == old(self).initialized,
            final(runtime).initialized == old(runtime).initialized,
            final(runtime).backend.profile == old(runtime).backend.profile,
            !old(self).initialized ==> r == Err::<StoreEntry, StoreError>(StoreError::NotInitialized)
                && final(self).slots@ == old(self).slots@ && final(self).stats == old(self).stats
                && final(self).next_evict == old(self).next_evict && *final(runtime) == *old(runtime),
            old(self).initialized && !old(runtime).initialized ==> {
                &&& r == Err::<StoreEntry, StoreError>(StoreError::Encode(CompressionError::NotInitialized))
                &&& final(self).slots@ == old(self).slots@
                &&& final(self).next_evict == old(self).next_evict
                &&& final(self).stats == (StoreStats {
                    store_requests: bump(old(self).stats.store_requests),
                    total_input_bytes: sat_add(old(self).stats.total_input_bytes, PAGE_BYTES as int),
                    encode_failures: bump(old(self).stats.encode_failures),
                    ..old(self).stats
                })
            },
            old(self).initialized && old(runtime).initialized ==> {
                let v = old(self).slots_view();
                let t = store_target(v, old(self).next_evict as int, page_id);
                let replaced = first_slot(v, page_id, 0) is Some;
                let evicted = first_slot(v, page_id, 0) is None && first_empty(v, 0) is None;
                &&& r == Ok::<StoreEntry, StoreError>(StoreEntry {
                    page_id,
                    class: page_class(page@),
                    encoded_bytes: page_payload(page@).len() as usize,
                })
                &&& final(self).slots_view() == v.update(t, stored_slot(page_id, page@))
                &&& final(self).next_evict == if evicted {
                    ((old(self).next_evict + 1) % (STORE_CAPACITY_PAGES as int)) as usize
                } else {
                    old(self).next_evict
                }
                &&& final(self).stats == stats_after_store(
                    old(self).stats,
                    v[t],
                    replaced,
                    evicted,
                    page_class(page@),
                    page_payload(page@).len() as int,
                )
                &&& final(runtime).backend.stats == crate::compress::stats_encoded(
                    old(runtime).backend.stats,
                    page_class(page@),
                )
            },
            old(self).counters_consistent() ==> final(self).counters_consistent(),
    {
        if !self.initialized {
            return Err(StoreError::NotInitialized);
        }
        self.stats.store_requests = self.stats.store_requests.saturating_add(1);
        self.stats.total_input_bytes = self.stats.total_input_bytes.saturating_add(PAGE_BYTES as u64);

        let mut scratch = crate::block::zeroed(MAX_ENCODED_PAGE_BYTES);
        let encoded = match runtime.encode_page(page, scratch.as_mut_slice()) {
            Ok(e) => e,
            Err(error) => {
                self.stats.encode_failures = self.stats.encode_failures.saturating_add(1);
                return Err(StoreError::Encode(error));
            },
        };
        let ghost v = self.slots_view();
        let EncodedPage { class: encoded_class, payload: encoded_bytes } = encoded;
        let encoded_len = encoded_bytes.len();
        proof {
            lemma_first_slot_bounds(v, page_id, 0);
            lemma_first_empty_bounds(v, 0);
        }

        let existing_idx = self.find_slot(page_id);
        let target_idx = match existing_idx {
            Some(idx) => {
                self.stats.replacements = self.stats.replacements.saturating_add(1);
                idx
            },
            None => match self.find_empty_slot() {
                Some(idx) => idx,
                None => {
                    let idx = self.next_evict;
                    self.next_evict = (self.next_evict + 1) % STORE_CAPACITY_PAGES;
                    self.stats.evictions = self.stats.evictions.saturating_add(1);
                    idx
                },
            },
        };

        let had_old = self.slots[target_idx].occupied;
        let old_class = self.slots[target_idx].class;
        let old_len = self.slots[target_idx].encoded.len();
        if had_old {
            self.account_removed(old_class, old_len);
        } else {
            self.stats.stored_pages = self.stats.stored_pages.saturating_add(1);
        }

        let slot = StoreSlot { occupied: true, page_id, class: encoded_class, encoded: encoded_bytes };
        self.slots.set(target_idx, slot);
        proof {
            assert(self.slots_view() =~= v.update(target_idx as int, stored_slot(page_id, page@)));
        }

        self.account_added(encoded_class, encoded_len);
        self.stats.store_successes = self.stats.store_successes.saturating_add(1);
        self.stats.total_encoded_bytes = self.stats.total_encoded_bytes.saturating_add(encoded_len as u64);
        proof {
            if counters_match(old(self).stats, v) {
                assert(self.slots_view()[target_idx as int] == stored_slot(page_id, page@));
                lemma_store_keeps_counters(
                    old(self).stats,
                    v,
                    target_idx as int,
                    stored_slot(page_id, page@),
                    existing_idx is Some,
                    existing_idx is None && first_empty(v, 0) is None,
                );
            }
        }

        Ok(StoreEntry { page_id, class: encoded_class, encoded_bytes: encoded_len })
    }

    /// Decodes the page kept under `page_id` into `out`.
    pub fn load_page(&mut self, runtime: &mut CompressionRuntime, page_id: u64, out: &mut [u8]) -> (r: Result<
        StoreEntry,
        StoreError,
    >)
        requires
            old(self).wf(),
            old(out)@.len() == PAGE_BYTES,
        ensures
            final(self).wf(),
            final(self).initialized == old(self).initialized,
            final(self).slots@ == old(self).slots@,
            final(self).next_evict == old(self).next_evict,
            final(runtime).initialized == old(runtime).initialized,
            final(runtime).backend.profile == old(runtime).backend.profile,
            !old(self).initialized ==> r == Err::<StoreEntry, StoreError>(StoreError::NotInitialized)
                && final(self).stats == old(self).stats && *final(runtime) == *old(runtime)
                && final(out)@ == old(out)@,
            old(self).initialized ==> match lookup(old(self).slots_view(), page_id) {
                None => {
                    &&& r == Err::<StoreEntry, StoreError>(StoreError::NotFound)
                    &&& final(out)@ == old(out)@
                    &&& *final(runtime) == *old(runtime)
                    &&& final(self).stats == (StoreStats {
                        load_requests: bump(old(self).stats.load_requests),
                        load_misses: bump(old(self).stats.load_misses),
                        ..old(self).stats
                    })
                },
                Some(sv) => {
                    let outcome = if old(runtime).initialized {
                        decoded(sv.class, sv.encoded)
                    } else {
                        Err(CompressionError::NotInitialized)
                    };
                    match outcome {
                        Ok(p) => {
                            &&& r == Ok::<StoreEntry, StoreError>(StoreEntry {
                                page_id,
                                class: sv.class,
                                encoded_bytes: sv.encoded.len() as usize,
                            })
                            &&& final(out)@ == p
                            &&& final(self).stats == (StoreStats {
                                load_requests: bump(old(self).stats.load_requests),
                                load_successes: bump(old(self).stats.load_successes),
                                ..old(self).stats
                            })
                        },
                        Err(e) => {
                            &&& r == Err::<StoreEntry, StoreError>(StoreError::Decode(e))
                            &&& final(out)@ == old(out)@
                            &&& final(self).stats == (StoreStats {
                                load_requests: bump(old(self).stats.load_requests),
                                decode_failures: bump(old(self).stats.decode_failures),
                                ..old(self).stats
                            })
                        },
                    }
                },
            },
            old(self).counters_consistent() ==> final(self).counters_consistent(),
    {
        if !self.initialized {
            return Err(StoreError::NotInitialized);
        }
        self.stats.load_requests = self.stats.load_requests.saturating_add(1);
        let slot_idx = match self.find_slot(page_id) {
            Some(idx) => idx,
            None => {
                self.stats.load_misses = self.stats.load_misses.saturating_add(1);
                return Err(StoreError::NotFound);
            },
        };
        proof {
            lemma_first_slot_bounds(self.slots_view(), page_id, 0);
        }
        let class = self.slots[slot_idx].class;
        let encoded_len = self.slots[slot_idx].encoded.len();
        let encoded = EncodedPage::new(class, self.slots[slot_idx].encoded.clone());
        let decode_result = runtime.decode_page(&encoded, out);
        match decode_result {
            Ok(()) => {
                self.stats.load_successes = self.stats.load_successes.saturating_add(1);
                Ok(StoreEntry { page_id, class, encoded_bytes: encoded_len })
            },
            Err(error) => {
                self.stats.decode_failures = self.stats.decode_failures.saturating_add(1);
                Err(StoreError::Decode(error))
            },
        }
    }

    /// The first slot holding `page_id`.
    fn find_slot(&self, page_id: u64) -> (r: Option<usize>)
        requires
            self.wf(),
        ensures
            r == (match first_slot(self.slots_view(), page_id, 0) {
                Some(i) => Some(i as usize),
                None => None::<usize>,
            }),
    {
        let mut index: usize = 0;
        let mut found: Option<usize> = None;
        while index < STORE_CAPACITY_PAGES && found.is_none()
            invariant
                self.wf(),
                index <= STORE_CAPACITY_PAGES,
                found is None ==> first_slot(self.slots_view(), page_id, 0) == first_slot(
                    self.slots_view(),
                    page_id,
                    index as int,
                ),
                found matches Some(i) ==> first_slot(self.slots_view(), page_id, 0) == Some(i as int),
            decreases STORE_CAPACITY_PAGES - index + (if found is None { 1int } else { 0 }),
        {
            let slot = &self.slots[index];
            if slot.occupied && slot.page_id == page_id {
                found = Some(index);
            } else {
                index = index + 1;
            }
        }
        found
    }

    /// The first free slot.
    fn find_empty_slot(&self) -> (r: Option<usize>)
        requires
            self.wf(),
        ensures
            r == (match first_empty(self.slots_view(), 0) {
                Some(i) => Some(i as usize),
                None => None::<usize>,
            }),
    {
        let mut index: usize = 0;
        let mut found: Option<usize> = None;
        while index < STORE_CAPACITY_PAGES && found.is_none()
            invariant
                self.wf(),
                index <= STORE_CAPACITY_PAGES,
                found is None ==> first_empty(self.slots_view(), 0) == first_empty(self.slots_view(), index as int),
                found matches Some(i) ==> first_empty(self.slots_view(), 0) == Some(i as int),
            decreases STORE_CAPACITY_PAGES - index + (if found is None { 1int } else { 0 }),
        {
            if !self.slots[index].occupied {
                found = Some(index);
            } else {
                index = index + 1;
            }
        }
        found
    }
}

} // verus!
