//! Accelerator dispatch: a small driver table and the SPE stub driver, whose job queue
//! has a fixed number of slots.
use vstd::prelude::*;

verus! {

pub const MAX_ACCEL_DRIVERS: usize = 4;
pub const SPE_STUB_QUEUE_DEPTH: usize = 32;

#[derive(Copy, Clone, Debug, PartialEq, Eq, Structural)]
pub enum AccelKind {
    Spe,
}

impl AccelKind {
    pub fn as_str(self) -> (s: &'static str)
        ensures
            s@ == "spe"@,
    {
        match self {
            AccelKind::Spe => "spe",
        }
    }
}

#[derive(Copy, Clone, Debug, PartialEq, Eq, Structural)]
pub struct AccelCaps {
    pub mailbox: bool,
    pub dma: bool,
    pub queue_depth: u16,
}

#[derive(Copy, Clone, Debug, PartialEq, Eq, Structural)]
pub struct AccelJobEnvelope {
    pub job_id: u64,
    pub code_address: u64,
    pub code_length: u32,
    pub data_address: u64,
    pub data_length: u32,
    pub flags: u32,
}

#[derive(Copy, Clone, Debug, PartialEq, Eq, Structural)]
pub struct AccelCompletion {
    pub job_id: u64,
    pub status: u32,
}

#[derive(Copy, Clone, Debug, PartialEq, Eq, Structural)]
pub enum AccelSubmitError {
    NotInitialized,
    InvalidJob,
    QueueFull,
}

impl AccelSubmitError {
    pub fn as_str(self) -> (s: &'static str)
        ensures
            self == AccelSubmitError::NotInitialized ==> s@ == "accelerator subsystem is not initialized"@,
            self == AccelSubmitError::InvalidJob ==> s@ == "job envelope is invalid"@,
            self == AccelSubmitError::QueueFull ==> s@ == "accelerator queue is full"@,
    {
        match self {
            AccelSubmitError::NotInitialized => "accelerator subsystem is not initialized",
            AccelSubmitError::InvalidJob => "job envelope is invalid",
            AccelSubmitError::QueueFull => "accelerator queue is full",
        }
    }
}

#[derive(Copy, Clone, Debug, PartialEq, Eq, Structural)]
pub enum AccelInitError {
    AlreadyInitialized,
}

impl AccelInitError {
    pub fn as_str(self) -> (s: &'static str)
        ensures
            s@ == "accelerator subsystem is already initialized"@,
    {
        match self {
            AccelInitError::AlreadyInitialized => "accelerator subsystem is already initialized",
        }
    }
}

/// A registered driver: its name and kind. Its operations are those of the SPE stub, the
/// one driver there is.
#[derive(Copy, Clone, Debug)]
pub struct AccelDriverOps {
    pub driver_name: &'static str,
    pub kind: AccelKind,
}

#[derive(Copy, Clone, Debug)]
pub struct DriverSlot {
    pub present: bool,
    pub ops: AccelDriverOps,
}

#[derive(Copy, Clone, Debug)]
pub struct AccelSummary {
    pub initialized: bool,
    pub driver_count: usize,
    pub pending_jobs: usize,
    pub submitted_jobs: u64,
    pub completed_jobs: u64,
    pub canceled_jobs: u64,
}

/// The SPE stub always probes.
pub fn spe_stub_probe() -> (b: bool)
    ensures
        b,
{
    true
}

/// The SPE stub has a mailbox, DMA, and its queue depth.
pub fn spe_stub_caps() -> (c: AccelCaps)
    ensures
        c == (AccelCaps { mailbox: true, dma: true, queue_depth: SPE_STUB_QUEUE_DEPTH as u16 }),
{
    AccelCaps { mailbox: true, dma: true, queue_depth: SPE_STUB_QUEUE_DEPTH as u16 }
}

/// The number of occupied slots.
pub open spec fn occupied(q: Seq<Option<AccelJobEnvelope>>) -> int
    decreases q.len(),
{
    if q.len() == 0 { 0 } else { occupied(q.drop_last()) + if q.last() is Some { 1int } else { 0 } }
}

proof fn lemma_occupied_bound(q: Seq<Option<AccelJobEnvelope>>)
    ensures
        0 <= occupied(q) <= q.len(),
    decreases q.len(),
{
    if q.len() > 0 {
        lemma_occupied_bound(q.drop_last());
    }
}

proof fn lemma_occupied_update(q: Seq<Option<AccelJobEnvelope>>, i: int, v: Option<AccelJobEnvelope>)
    requires
        0 <= i < q.len(),
    ensures
        occupied(q.update(i, v)) == occupied(q) - (if q[i] is Some { 1int } else { 0 }) + (if v is Some {
            1int
        } else {
            0
        }),
    decreases q.len(),
{
    if i < q.len() - 1 {
        assert(q.update(i, v).drop_last() =~= q.drop_last().update(i, v));
        lemma_occupied_update(q.drop_last(), i, v);
    } else {
        assert(q.update(i, v).drop_last() =~= q.drop_last());
    }
}

proof fn lemma_occupied_full(q: Seq<Option<AccelJobEnvelope>>)
    requires
        forall|k: int| 0 <= k < q.len() ==> (#[trigger] q[k]) is Some,
    ensures
        occupied(q) == q.len(),
    decreases q.len(),
{
    if q.len() > 0 {
        lemma_occupied_full(q.drop_last());
    }
}

proof fn lemma_occupied_empty(q: Seq<Option<AccelJobEnvelope>>)
    requires
        forall|k: int| 0 <= k < q.len() ==> (#[trigger] q[k]) is None,
    ensures
        occupied(q) == 0,
    decreases q.len(),
{
    if q.len() > 0 {
        lemma_occupied_empty(q.drop_last());
    }
}

/// The first slot at or after `i` that satisfies the test: free (`want` None), occupied
/// (`want` Some(None)), or holding job `id` (`want` Some(Some(id))).
pub open spec fn first_slot(q: Seq<Option<AccelJobEnvelope>>, want: Option<Option<u64>>, i: int) -> Option<int>
    decreases q.len() - i,
{
    if i < 0 || i >= q.len() {
        None
    } else if match want {
        None => q[i] is None,
        Some(None) => q[i] is Some,
        Some(Some(id)) => q[i] matches Some(j) && j.job_id == id,
    } {
        Some(i)
    } else {
        first_slot(q, want, i + 1)
    }
}

proof fn lemma_first_slot(q: Seq<Option<AccelJobEnvelope>>, want: Option<Option<u64>>, i: int)
    ensures
        first_slot(q, want, i) matches Some(k) ==> i <= k < q.len() && match want {
            None => q[k] is None,
            Some(None) => q[k] is Some,
            Some(Some(id)) => q[k] matches Some(j) && j.job_id == id,
        },
        i >= 0 && first_slot(q, want, i) is None && want is None ==> forall|k: int| i <= k < q.len() ==> (
        #[trigger] q[k]) is Some,
    decreases q.len() - i,
{
    if 0 <= i < q.len() {
        lemma_first_slot(q, want, i + 1);
    }
}

/// The queue after `jobs` were accepted in order, each into the first free slot, as
/// `submit` places an accepted job (a job finding no free slot leaves the queue as it was).
pub open spec fn submit_all(q: Seq<Option<AccelJobEnvelope>>, jobs: Seq<AccelJobEnvelope>) -> Seq<Option<AccelJobEnvelope>>
    decreases jobs.len(),
{
    if jobs.len() == 0 {
        q
    } else {
        let p = submit_all(q, jobs.drop_last());
        match first_slot(p, None, 0) {
            Some(k) => p.update(k, Some(jobs.last())),
            None => p,
        }
    }
}

/// One poll of the queue: the id of the job completed from the first occupied slot and
/// the queue after, or `None` and the queue unchanged.
pub open spec fn poll_queue(q: Seq<Option<AccelJobEnvelope>>) -> (Option<u64>, Seq<Option<AccelJobEnvelope>>) {
    match first_slot(q, Some(None), 0) {
        Some(k) => (Some(q[k]->0.job_id), q.update(k, None)),
        None => (None, q),
    }
}

/// What `n` polls in a row complete.
pub open spec fn completions(q: Seq<Option<AccelJobEnvelope>>, n: nat) -> Seq<Option<u64>>
    decreases n,
{
    if n == 0 {
        Seq::empty()
    } else {
        seq![poll_queue(q).0] + completions(poll_queue(q).1, (n - 1) as nat)
    }
}

/// The ids of `jobs`, in order.
pub open spec fn job_ids(jobs: Seq<AccelJobEnvelope>) -> Seq<Option<u64>> {
    jobs.map_values(|j: AccelJobEnvelope| Some(j.job_id))
}

/// Slots `k..jobs.len()` hold the jobs of the same index; the other slots are free.
pub open spec fn queued_from(q: Seq<Option<AccelJobEnvelope>>, jobs: Seq<AccelJobEnvelope>, k: int) -> bool {
    &&& jobs.len() <= q.len()
    &&& forall|i: int| 0 <= i < q.len() ==> #[trigger] q[i] == if k <= i < jobs.len() {
        Some(jobs[i])
    } else {
        None::<AccelJobEnvelope>
    }
}

proof fn lemma_first_free_at(q: Seq<Option<AccelJobEnvelope>>, from: int, k: int)
    requires
        0 <= from <= k < q.len(),
        forall|j: int| from <= j < k ==> (#[trigger] q[j]) is Some,
        q[k] is None,
    ensures
        first_slot(q, None, from) == Some(k),
    decreases k - from,
{
    if from < k {
        lemma_first_free_at(q, from + 1, k);
    }
}

proof fn lemma_first_occupied_at(q: Seq<Option<AccelJobEnvelope>>, from: int, k: int)
    requires
        0 <= from <= k < q.len(),
        forall|j: int| from <= j < k ==> (#[trigger] q[j]) is None,
        q[k] is Some,
    ensures
        first_slot(q, Some(None), from) == Some(k),
    decreases k - from,
{
    if from < k {
        lemma_first_occupied_at(q, from + 1, k);
    }
}

proof fn lemma_none_occupied(q: Seq<Option<AccelJobEnvelope>>, from: int)
    requires
        0 <= from,
        forall|j: int| from <= j < q.len() ==> (#[trigger] q[j]) is None,
    ensures
        first_slot(q, Some(None), from) is None,
    decreases q.len() - from,
{
    if from < q.len() {
        lemma_none_occupied(q, from + 1);
    }
}

proof fn lemma_submit_all_fills(q: Seq<Option<AccelJobEnvelope>>, jobs: Seq<AccelJobEnvelope>)
    requires
        jobs.len() <= q.len(),
        forall|i: int| 0 <= i < q.len() ==> (#[trigger] q[i]) is None,
    ensures
        submit_all(q, jobs).len() == q.len(),
        queued_from(submit_all(q, jobs), jobs, 0),
    decreases jobs.len(),
{
    if jobs.len() > 0 {
        let n = jobs.len() - 1;
        let js = jobs.drop_last();
        lemma_submit_all_fills(q, js);
        let p = submit_all(q, js);
        assert forall|j: int| 0 <= j < n implies (#[trigger] p[j]) is Some by {
            assert(p[j] == Some(js[j]));
        }
        assert(p[n] == None::<AccelJobEnvelope>);
        lemma_first_free_at(p, 0, n);
        let r = p.update(n, Some(jobs.last()));
        assert forall|i: int| 0 <= i < r.len() implies #[trigger] r[i] == if 0 <= i < jobs.len() {
            Some(jobs[i])
        } else {
            None::<AccelJobEnvelope>
        } by {
            if i != n {
                assert(p[i] == if 0 <= i < js.len() { Some(js[i]) } else { None::<AccelJobEnvelope> });
            }
        }
    }
}

proof fn lemma_polls_in_order(q: Seq<Option<AccelJobEnvelope>>, jobs: Seq<AccelJobEnvelope>, k: int)
    requires
        0 <= k <= jobs.len(),
        queued_from(q, jobs, k),
    ensures
        completions(q, (jobs.len() - k + 1) as nat) == job_ids(jobs.subrange(k, jobs.len() as int)) + seq![
            None::<u64>,
        ],
    decreases jobs.len() - k,
{
    let n = jobs.len() as int;
    if k == n {
        assert forall|j: int| 0 <= j < q.len() implies (#[trigger] q[j]) is None by {}
        lemma_none_occupied(q, 0);
        assert(completions(poll_queue(q).1, 0) == Seq::<Option<u64>>::empty());
        assert(job_ids(jobs.subrange(k, n)) =~= Seq::<Option<u64>>::empty());
        assert(completions(q, 1) =~= seq![None::<u64>]);
    } else {
        assert forall|j: int| 0 <= j < k implies (#[trigger] q[j]) is None by {}
        assert(q[k] == Some(jobs[k]));
        lemma_first_occupied_at(q, 0, k);
        let q2 = q.update(k, None);
        assert(queued_from(q2, jobs, k + 1));
        lemma_polls_in_order(q2, jobs, k + 1);
        assert(poll_queue(q) == (Some(jobs[k].job_id), q2));
        assert(job_ids(jobs.subrange(k, n)) =~= seq![Some(jobs[k].job_id)] + job_ids(jobs.subrange(k + 1, n)));
        assert(completions(q, (n - k + 1) as nat) == seq![Some(jobs[k].job_id)] + completions(q2, (n - k) as nat));
        assert(completions(q, (n - k + 1) as nat) =~= job_ids(jobs.subrange(k, n)) + seq![None::<u64>]);
    }
}

/// Jobs submitted one after another into an empty queue, with no poll or cancel between,
/// complete in the order they were submitted; the poll after the last finds nothing.
pub proof fn lemma_completion_order(q: Seq<Option<AccelJobEnvelope>>, jobs: Seq<AccelJobEnvelope>)
    requires
        jobs.len() <= q.len(),
        forall|i: int| 0 <= i < q.len() ==> (#[trigger] q[i]) is None,
    ensures
        completions(submit_all(q, jobs), (jobs.len() + 1) as nat) == job_ids(jobs) + seq![None::<u64>],
{
    lemma_submit_all_fills(q, jobs);
    lemma_polls_in_order(submit_all(q, jobs), jobs, 0);
    assert(jobs.subrange(0, jobs.len() as int) =~= jobs);
}

/// The first slot satisfying the test, as `first_slot` describes it.
fn find_slot(q: &Vec<Option<AccelJobEnvelope>>, want: Option<Option<u64>>) -> (r: Option<usize>)
    ensures
        match first_slot(q@, want, 0) {
            Some(k) => r == Some(k as usize),
            None => r is None,
        },
{
    let mut i: usize = 0;
    let mut found: Option<usize> = None;
    while i < q.len() && found.is_none()
        invariant
            i <= q@.len(),
            found is None ==> first_slot(q@, want, 0) == first_slot(q@, want, i as int),
            found matches Some(k) ==> first_slot(q@, want, 0) == Some(k as int),
        decreases q@.len() - i + (if found is None { 1int } else { 0 }),
    {
        let hit = match want {
            None => q[i].is_none(),
            Some(None) => q[i].is_some(),
            Some(Some(id)) => match q[i] {
                Some(j) => j.job_id == id,
                None => false,
            },
        };
        if hit {
            found = Some(i);
        } else {
            i = i + 1;
        }
    }
    found
}

/// The SPE stub's queue and counters.
pub struct SpeStubState {
    pub queue: Vec<Option<AccelJobEnvelope>>,
    pub pending: usize,
    pub submitted: u64,
    pub completed: u64,
    pub canceled: u64,
}

pub open spec fn sat_inc(x: u64) -> u64 {
    if x == u64::MAX { x } else { (x + 1) as u64 }
}

impl SpeStubState {
    pub open spec fn wf(&self) -> bool {
        self.queue@.len() == SPE_STUB_QUEUE_DEPTH && self.pending == occupied(self.queue@)
    }

    pub fn new() -> (s: Self)
        ensures
            s.wf(),
            s.pending == 0 && s.submitted == 0 && s.completed == 0 && s.canceled == 0,
            forall|k: int| 0 <= k < SPE_STUB_QUEUE_DEPTH ==> (#[trigger] s.queue@[k]) is None,
    {
        let mut queue: Vec<Option<AccelJobEnvelope>> = Vec::new();
        let mut i: usize = 0;
        while i < SPE_STUB_QUEUE_DEPTH
            invariant
                i <= SPE_STUB_QUEUE_DEPTH,
                queue@.len() == i,
                forall|k: int| 0 <= k < i ==> (#[trigger] queue@[k]) is None,
            decreases SPE_STUB_QUEUE_DEPTH - i,
        {
            queue.push(None);
            i = i + 1;
        }
        proof {
            lemma_occupied_empty(queue@);
        }
        SpeStubState { queue, pending: 0, submitted: 0, completed: 0, canceled: 0 }
    }

    /// Queues a job in the first free slot; job id 0 is refused.
    pub fn submit(&mut self, job: AccelJobEnvelope) -> (r: Result<(), AccelSubmitError>)
        requires
            old(self).wf(),
        ensures
            final(self).wf(),
            job.job_id == 0 ==> r == Err::<(), AccelSubmitError>(AccelSubmitError::InvalidJob) && *final(self)
                == *old(self),
            job.job_id != 0 && old(self).pending >= SPE_STUB_QUEUE_DEPTH ==> r == Err::<(), AccelSubmitError>(
                AccelSubmitError::QueueFull,
            ) && *final(self) == *old(self),
            job.job_id != 0 && old(self).pending < SPE_STUB_QUEUE_DEPTH ==> r is Ok && (first_slot(
                old(self).queue@,
                None,
                0,
            ) matches Some(k) && final(self).queue@ == old(self).queue@.update(k, Some(job))
                && final(self).pending == old(self).pending + 1 && final(self).submitted == sat_inc(
                old(self).submitted,
            ) && final(self).completed == old(self).completed && final(self).canceled == old(self).canceled),
    {
        if job.job_id == 0 {
            return Err(AccelSubmitError::InvalidJob);
        }
        if self.pending >= SPE_STUB_QUEUE_DEPTH {
            return Err(AccelSubmitError::QueueFull);
        }
        match find_slot(&self.queue, None) {
            Some(i) => {
                proof {
                    lemma_first_slot(self.queue@, None, 0);
                    lemma_occupied_update(self.queue@, i as int, Some(job));
                    lemma_occupied_bound(self.queue@);
                }
                self.queue.set(i, Some(job));
                self.pending = self.pending + 1;
                self.submitted = self.submitted.saturating_add(1);
                return Ok(());
            },
            None => {},
        }
        proof {
            lemma_first_slot(self.queue@, None, 0);
            lemma_occupied_full(self.queue@);
        }
        Err(AccelSubmitError::QueueFull)
    }

    /// Completes the job in the first occupied slot.
    pub fn poll_complete(&mut self) -> (r: Option<AccelCompletion>)
        requires
            old(self).wf(),
        ensures
            final(self).wf(),
            match first_slot(old(self).queue@, Some(None), 0) {
                None => r is None && *final(self) == *old(self),
                Some(k) => r == Some(AccelCompletion { job_id: old(self).queue@[k]->0.job_id, status: 0 })
                    && final(self).queue@ == old(self).queue@.update(k, None) && final(self).pending
                    == old(self).pending - 1 && final(self).completed == sat_inc(old(self).completed)
                    && final(self).submitted == old(self).submitted && final(self).canceled == old(self).canceled,
            },
    {
        match find_slot(&self.queue, Some(None)) {
            Some(i) => {
                proof {
                    lemma_first_slot(self.queue@, Some(None), 0);
                    lemma_occupied_update(self.queue@, i as int, None);
                    lemma_occupied_bound(self.queue@.update(i as int, None));
                }
                let job_id = match self.queue[i] {
                    Some(job) => job.job_id,
                    None => 0,
                };
                self.queue.set(i, None);
                self.pending = self.pending.saturating_sub(1);
                self.completed = self.completed.saturating_add(1);
                return Some(AccelCompletion { job_id, status: 0 });
            },
            None => {},
        }
        None
    }

    /// Drops the first queued job with `job_id`; whether one was there.
    pub fn cancel(&mut self, job_id: u64) -> (b: bool)
        requires
            old(self).wf(),
        ensures
            final(self).wf(),
            match first_slot(old(self).queue@, Some(Some(job_id)), 0) {
                None => !b && *final(self) == *old(self),
                Some(k) => b && final(self).queue@ == old(self).queue@.update(k, None) && final(self).pending
                    == old(self).pending - 1 && final(self).canceled == sat_inc(old(self).canceled)
                    && final(self).submitted == old(self).submitted && final(self).completed == old(self).completed,
            },
    {
        match find_slot(&self.queue, Some(Some(job_id))) {
            Some(i) => {
                proof {
                    lemma_first_slot(self.queue@, Some(Some(job_id)), 0);
                    lemma_occupied_update(self.queue@, i as int, None);
                    lemma_occupied_bound(self.queue@.update(i as int, None));
                }
                self.queue.set(i, None);
                self.pending = self.pending.saturating_sub(1);
                self.canceled = self.canceled.saturating_add(1);
                return true;
            },
            None => {},
        }
        false
    }
}

/// The accelerator subsystem: whether it is up, its driver table, and the SPE stub.
pub struct AccelState {
    pub initialized: bool,
    pub driver_count: usize,
    pub drivers: Vec<DriverSlot>,
    pub spe_stub: SpeStubState,
}

/// The first free driver slot.
pub open spec fn first_free_driver(d: Seq<DriverSlot>, i: int) -> Option<int>
    decreases d.len() - i,
{
    if i < 0 || i >= d.len() {
        None
    } else if !d[i].present {
        Some(i)
    } else {
        first_free_driver(d, i + 1)
    }
}

proof fn lemma_first_free_driver(d: Seq<DriverSlot>, i: int)
    ensures
        first_free_driver(d, i) matches Some(k) ==> i <= k < d.len(),
    decreases d.len() - i,
{
    if 0 <= i < d.len() {
        lemma_first_free_driver(d, i + 1);
    }
}

impl AccelState {
    pub open spec fn wf(&self) -> bool {
        &&& self.drivers@.len() == MAX_ACCEL_DRIVERS
        &&& self.driver_count <= MAX_ACCEL_DRIVERS
        &&& self.spe_stub.wf()
    }

    pub fn new() -> (s: Self)
        ensures
            s.wf(),
            !s.initialized,
            s.driver_count == 0,
            forall|i: int| 0 <= i < MAX_ACCEL_DRIVERS ==> !(#[trigger] s.drivers@[i]).present,
            s.spe_stub.pending == 0 && s.spe_stub.submitted == 0 && s.spe_stub.completed == 0
                && s.spe_stub.canceled == 0,
            forall|k: int| 0 <= k < SPE_STUB_QUEUE_DEPTH ==> (#[trigger] s.spe_stub.queue@[k]) is None,
    {
        let mut drivers: Vec<DriverSlot> = Vec::new();
        let mut i: usize = 0;
        while i < MAX_ACCEL_DRIVERS
            invariant
                i <= MAX_ACCEL_DRIVERS,
                drivers@.len() == i,
                forall|k: int| 0 <= k < i ==> !(#[trigger] drivers@[k]).present,
            decreases MAX_ACCEL_DRIVERS - i,
        {
            drivers.push(DriverSlot { present: false, ops: AccelDriverOps { driver_name: "", kind: AccelKind::Spe } });
            i = i + 1;
        }
        AccelState { initialized: false, driver_count: 0, drivers, spe_stub: SpeStubState::new() }
    }

    /// Puts a driver in the first free slot; with none free nothing changes.
    pub fn register_driver(&mut self, ops: AccelDriverOps)
        requires
            old(self).wf(),
        ensures
            final(self).wf(),
            final(self).initialized == old(self).initialized,
            final(self).spe_stub == old(self).spe_stub,
            match first_free_driver(old(self).drivers@, 0) {
                Some(k) => final(self).drivers@ == old(self).drivers@.update(k, DriverSlot { present: true, ops })
                    && final(self).driver_count == if old(self).driver_count < MAX_ACCEL_DRIVERS {
                    old(self).driver_count + 1
                } else {
                    old(self).driver_count as int
                },
                None => final(self).drivers@ == old(self).drivers@ && final(self).driver_count == old(self).driver_count,
            },
    {
        let mut i: usize = 0;
        let mut found: Option<usize> = None;
        while i < self.drivers.len() && found.is_none()
            invariant
                i <= self.drivers@.len(),
                found is None ==> first_free_driver(self.drivers@, 0) == first_free_driver(self.drivers@, i as int),
                found matches Some(k) ==> first_free_driver(self.drivers@, 0) == Some(k as int),
            decreases self.drivers@.len() - i + (if found is None { 1int } else { 0 }),
        {
            if !self.drivers[i].present {
                found = Some(i);
            } else {
                i = i + 1;
            }
        }
        match found {
            Some(k) => {
                proof {
                    lemma_first_free_driver(self.drivers@, 0);
                }
                self.drivers.set(k, DriverSlot { present: true, ops });
                if self.driver_count < MAX_ACCEL_DRIVERS {
                    self.driver_count = self.driver_count + 1;
                }
            },
            None => {},
        }
    }

    pub fn summary(&self) -> (s: AccelSummary)
        ensures
            s.initialized == self.initialized,
            s.driver_count == self.driver_count,
            s.pending_jobs == self.spe_stub.pending,
            s.submitted_jobs == self.spe_stub.submitted,
            s.completed_jobs == self.spe_stub.completed,
            s.canceled_jobs == self.spe_stub.canceled,
    {
        AccelSummary {
            initialized: self.initialized,
            driver_count: self.driver_count,
            pending_jobs: self.spe_stub.pending,
            submitted_jobs: self.spe_stub.submitted,
            completed_jobs: self.spe_stub.completed,
            canceled_jobs: self.spe_stub.canceled,
        }
    }

    /// Brings the subsystem up and registers the SPE stub.
    pub fn initialize(&mut self) -> (r: Result<AccelSummary, AccelInitError>)
        requires
            old(self).wf(),
        ensures
            final(self).wf(),
            final(self).initialized,
            old(self).initialized ==> r == Err::<AccelSummary, AccelInitError>(AccelInitError::AlreadyInitialized)
                && *final(self) == *old(self),
            !old(self).initialized ==> (r matches Ok(s) && s.initialized && s.driver_count
                == final(self).driver_count) && final(self).spe_stub == old(self).spe_stub && match first_free_driver(
                old(self).drivers@,
                0,
            ) {
                Some(k) => final(self).drivers@[k].present && final(self).drivers@[k].ops.driver_name@ == "spe-stub"@,
                None => final(self).drivers@ == old(self).drivers@,
            },
    {
        if self.initialized {
            return Err(AccelInitError::AlreadyInitialized);
        }
        proof {
            lemma_first_free_driver(self.drivers@, 0);
        }
        self.initialized = true;
        self.register_driver(AccelDriverOps { driver_name: "spe-stub", kind: AccelKind::Spe });
        Ok(self.summary())
    }

    pub fn is_initialized(&self) -> (b: bool)
        ensures
            b == self.initialized,
    {
        self.initialized
    }

    pub fn driver_count(&self) -> (n: usize)
        ensures
            n == self.driver_count,
    {
        self.driver_count
    }

    /// The driver in slot `index`, when one is there.
    pub fn driver(&self, index: usize) -> (r: Option<AccelDriverOps>)
        requires
            self.wf(),
        ensures
            index >= MAX_ACCEL_DRIVERS ==> r is None,
            index < MAX_ACCEL_DRIVERS ==> if self.drivers@[index as int].present {
                r == Some(self.drivers@[index as int].ops)
            } else {
                r is None
            },
    {
        if index >= MAX_ACCEL_DRIVERS {
            return None;
        }
        let slot = self.drivers[index];
        if slot.present {
            Some(slot.ops)
        } else {
            None
        }
    }

    /// Queues a job with the SPE stub once the subsystem is up.
    pub fn submit(&mut self, job: AccelJobEnvelope) -> (r: Result<(), AccelSubmitError>)
        requires
            old(self).wf(),
        ensures
            final(self).wf(),
            final(self).initialized == old(self).initialized,
            final(self).drivers@ == old(self).drivers@,
            !old(self).initialized ==> r == Err::<(), AccelSubmitError>(AccelSubmitError::NotInitialized)
                && final(self).spe_stub == old(self).spe_stub,
            old(self).initialized && job.job_id == 0 ==> r == Err::<(), AccelSubmitError>(AccelSubmitError::InvalidJob),
            old(self).initialized && job.job_id != 0 ==> (r is Ok <==> old(self).spe_stub.pending < SPE_STUB_QUEUE_DEPTH),
            old(self).initialized && job.job_id == 0 ==> final(self).spe_stub == old(self).spe_stub,
            old(self).initialized && job.job_id != 0 && old(self).spe_stub.pending >= SPE_STUB_QUEUE_DEPTH
                ==> final(self).spe_stub == old(self).spe_stub,
            old(self).initialized && job.job_id != 0 && old(self).spe_stub.pending < SPE_STUB_QUEUE_DEPTH ==> (
            first_slot(old(self).spe_stub.queue@, None, 0) matches Some(k) && final(self).spe_stub.queue@
                == old(self).spe_stub.queue@.update(k, Some(job)) && final(self).spe_stub.pending
                == old(self).spe_stub.pending + 1 && final(self).spe_stub.submitted == sat_inc(
                old(self).spe_stub.submitted,
            ) && final(self).spe_stub.completed == old(self).spe_stub.completed && final(self).spe_stub.canceled
                == old(self).spe_stub.canceled),
    {
        if !self.initialized {
            return Err(AccelSubmitError::NotInitialized);
        }
        self.spe_stub.submit(job)
    }

    /// Completes the oldest-placed job once the subsystem is up.
    pub fn poll_complete(&mut self) -> (r: Option<AccelCompletion>)
        requires
            old(self).wf(),
        ensures
            final(self).wf(),
            final(self).initialized == old(self).initialized,
            final(self).drivers@ == old(self).drivers@,
            !old(self).initialized ==> r is None && final(self).spe_stub == old(self).spe_stub,
            old(self).initialized ==> match first_slot(old(self).spe_stub.queue@, Some(None), 0) {
                None => r is None && final(self).spe_stub == old(self).spe_stub,
                Some(k) => r == Some(AccelCompletion { job_id: old(self).spe_stub.queue@[k]->0.job_id, status: 0 })
                    && final(self).spe_stub.queue@ == old(self).spe_stub.queue@.update(k, None)
                    && final(self).spe_stub.pending == old(self).spe_stub.pending - 1 && final(self).spe_stub.completed
                    == sat_inc(old(self).spe_stub.completed) && final(self).spe_stub.submitted
                    == old(self).spe_stub.submitted && final(self).spe_stub.canceled == old(self).spe_stub.canceled,
            },
    {
        if !self.initialized {
            return None;
        }
        self.spe_stub.poll_complete()
    }

    /// Cancels a queued job once the subsystem is up; whether one was dropped.
    pub fn cancel(&mut self, job_id: u64) -> (b: bool)
        requires
            old(self).wf(),
        ensures
            final(self).wf(),
            final(self).initialized == old(self).initialized,
            final(self).drivers@ == old(self).drivers@,
            !old(self).initialized ==> !b && final(self).spe_stub == old(self).spe_stub,
            old(self).initialized ==> b == first_slot(old(self).spe_stub.queue@, Some(Some(job_id)), 0) is Some,
            old(self).initialized ==> match first_slot(old(self).spe_stub.queue@, Some(Some(job_id)), 0) {
                None => final(self).spe_stub == old(self).spe_stub,
                Some(k) => final(self).spe_stub.queue@ == old(self).spe_stub.queue@.update(k, None)
                    && final(self).spe_stub.pending == old(self).spe_stub.pending - 1 && final(self).spe_stub.canceled
                    == sat_inc(old(self).spe_stub.canceled) && final(self).spe_stub.submitted
                    == old(self).spe_stub.submitted && final(self).spe_stub.completed == old(self).spe_stub.completed,
            },
    {
        if !self.initialized {
            return false;
        }
        self.spe_stub.cancel(job_id)
    }
}

} // verus!
