//! In-memory job store with FIFO ordering of pending jobs.
//!
//! A job is enqueued as `Pending`, claimed by one consumer (`Claimed`), and then
//! either acknowledged (`Completed`, keeping the consumer's result) or handed back (`Pending` again, by a nack or
//! by the reaper once its claim has gone stale).

use std::collections::{BTreeMap, VecDeque};
use std::time::{Duration, Instant};
use vstd::prelude::*;
use vstd::std_specs::btree::{increasing_seq, spec_keys_iter};
use vstd::laws_cmp::obeys_cmp;
use vstd::std_specs::cmp::OrdSpec;
use vstd::std_specs::iter::IteratorSpec;

use crate::error::{concat_str, uuid_string, uuid_text, JobId, QueueError};

verus! {

broadcast use vstd::seq_lib::group_seq_properties;

/// The identity of a peer (the 32 bytes of its public key, as two big-endian halves).
#[derive(Clone, Copy, Debug, PartialEq, Eq, Structural)]
pub struct PeerId {
    pub hi: u128,
    pub lo: u128,
}

/// The lifecycle state of a job. Times are nanoseconds on the store's monotonic clock.
#[derive(Clone, Debug, PartialEq, Eq)]
pub enum JobState {
    Pending,
    Claimed { consumer: PeerId, claimed_at: u64 },
    /// Processed; holds the result the consumer acknowledged it with.
    Completed { result: Option<Vec<u8>> },
    Failed { reason: String },
}

/// A job in the queue.
#[derive(Clone, Debug)]
pub struct Job {
    pub id: JobId,
    pub payload: Vec<u8>,
    pub priority: u8,
    /// Nanoseconds on the store's monotonic clock.
    pub created_at: u64,
    pub state: JobState,
    pub producer: PeerId,
}

/// Mathematical model of a [`JobState`].
pub enum StateView {
    Pending,
    Claimed { consumer: PeerId, claimed_at: u64 },
    Completed { result: Option<Seq<u8>> },
    Failed { reason: Seq<char> },
}

/// Mathematical model of a [`Job`].
pub struct JobView {
    pub id: JobId,
    pub payload: Seq<u8>,
    pub priority: u8,
    pub created_at: u64,
    pub state: StateView,
    pub producer: PeerId,
}

impl View for JobState {
    type V = StateView;

    open spec fn view(&self) -> StateView {
        match self {
            JobState::Pending => StateView::Pending,
            JobState::Claimed { consumer, claimed_at } => StateView::Claimed {
                consumer: *consumer,
                claimed_at: *claimed_at,
            },
            JobState::Completed { result } => StateView::Completed { result: bytes_view(*result) },
            JobState::Failed { reason } => StateView::Failed { reason: reason@ },
        }
    }
}

impl View for Job {
    type V = JobView;

    open spec fn view(&self) -> JobView {
        JobView {
            id: self.id,
            payload: self.payload@,
            priority: self.priority,
            created_at: self.created_at,
            state: self.state@,
            producer: self.producer,
        }
    }
}

/// `job` with its state replaced by `state`.
pub open spec fn with_state(job: JobView, state: StateView) -> JobView {
    JobView {
        id: job.id,
        payload: job.payload,
        priority: job.priority,
        created_at: job.created_at,
        state: state,
        producer: job.producer,
    }
}

/// A claim is stale when strictly more than `timeout` nanoseconds have passed
/// since it was taken (an earlier clock reading counts as no time passed).
pub open spec fn is_stale(job: JobView, timeout: u64, now: u64) -> bool {
    match job.state {
        StateView::Claimed { claimed_at, .. } => now > claimed_at && now - claimed_at > timeout,
        _ => false,
    }
}

/// The jobs after every stale claim has been handed back: those jobs are
/// `Pending` again and all others are unchanged.
pub open spec fn after_reap(jobs: Map<JobId, JobView>, timeout: u64, now: u64) -> Map<JobId, JobView> {
    Map::new(
        |id: JobId| jobs.contains_key(id),
        |id: JobId|
            if is_stale(jobs[id], timeout, now) {
                with_state(jobs[id], StateView::Pending)
            } else {
                jobs[id]
            },
    )
}

/// The message of the error for an ack or nack of a job that is not claimed.
pub open spec fn not_claimed_text(id: JobId) -> Seq<char> {
    "job "@ + uuid_text(id) + " is not in Claimed state"@
}

/// The model of optional bytes.
pub open spec fn bytes_view(b: Option<Vec<u8>>) -> Option<Seq<u8>> {
    match b {
        Some(v) => Some(v@),
        None => None,
    }
}

/// A copy of optional bytes.
fn duplicate_bytes(b: &Option<Vec<u8>>) -> (copy: Option<Vec<u8>>)
    ensures
        bytes_view(copy) == bytes_view(*b),
{
    match b {
        Some(v) => {
            let c = v.clone();
            assert(c@ =~= v@);
            Some(c)
        },
        None => None,
    }
}

impl JobState {
    /// A copy of this state.
    pub fn duplicate(&self) -> (copy: JobState)
        ensures
            copy@ == self@,
    {
        match self {
            JobState::Pending => JobState::Pending,
            JobState::Claimed { consumer, claimed_at } => JobState::Claimed {
                consumer: *consumer,
                claimed_at: *claimed_at,
            },
            JobState::Completed { result } => JobState::Completed { result: duplicate_bytes(result) },
            JobState::Failed { reason } => JobState::Failed { reason: reason.clone() },
        }
    }
}

impl Job {
    /// A copy of this job.
    pub fn duplicate(&self) -> (copy: Job)
        ensures
            copy@ == self@,
    {
        let payload = self.payload.clone();
        assert(payload@ =~= self.payload@);
        Job {
            id: self.id,
            payload,
            priority: self.priority,
            created_at: self.created_at,
            state: self.state.duplicate(),
            producer: self.producer,
        }
    }
}

#[verifier::external_type_specification]
#[verifier::external_body]
pub struct ExInstant(Instant);

/// std: `Instant::now`. Nothing is claimed of the reading.
#[verifier::external_body]
fn clock_origin() -> Instant {
    Instant::now()
}

/// std: `Instant::elapsed`. Nothing is claimed of the reading: it depends on
/// when it is taken.
#[verifier::external_body]
fn elapsed_since(origin: &Instant) -> Duration {
    origin.elapsed()
}

/// std: `Duration::as_nanos`. The duration is opaque here, so nothing is claimed
/// of the count beyond its type.
#[verifier::external_body]
fn duration_nanos(d: &Duration) -> u128 {
    d.as_nanos()
}

/// uuid: `Uuid::new_v4().as_u128()`. The value is random; the contract claims only
/// the version (4) and variant (`10`) bits that `new_v4` sets.
#[verifier::external_body]
fn fresh_job_id() -> (id: JobId)
    ensures
        (id >> 76u128) & 0xfu128 == 4,
        (id >> 62u128) & 0x3u128 == 2,
{
    uuid::Uuid::new_v4().as_u128()
}

/// Whatever a filter keeps was in the sequence and satisfies the predicate.
proof fn lemma_filter_keeps_only(s: Seq<JobId>, pred: spec_fn(JobId) -> bool, x: JobId)
    requires
        s.filter(pred).contains(x),
    ensures
        s.contains(x),
        pred(x),
    decreases s.len(),
{
    reveal(Seq::filter);
    let f = s.filter(pred);
    let k = choose|k: int| 0 <= k < f.len() && f[k] == x;
    s.lemma_filter_pred(pred, k);
    if s.len() > 0 {
        let sub = s.drop_last().filter(pred);
        if pred(s.last()) && k == f.len() - 1 {
            assert(s[s.len() - 1] == x);
        } else {
            assert(sub[k] == x);
            lemma_filter_keeps_only(s.drop_last(), pred, x);
            let j = choose|j: int| 0 <= j < s.drop_last().len() && s.drop_last()[j] == x;
            assert(s[j] == x);
        }
    }
}

/// Holds of every identifier but `id`.
pub open spec fn other_than(id: JobId) -> spec_fn(JobId) -> bool {
    |x: JobId| x != id
}

/// A claim of `job_id` for `consumer` at time `now`, answered with `r`, takes the
/// store from `before` to `after`: a missing job is reported, a job that is not
/// pending is reported as already claimed, and a pending job becomes `Claimed`
/// and leaves the pending queue.
pub open spec fn claim_spec(
    before: JobStore,
    after: JobStore,
    job_id: JobId,
    consumer: PeerId,
    now: u64,
    r: Result<Job, QueueError>,
) -> bool {
    let jobs = before.jobs();
    let claimable = jobs.contains_key(job_id) && jobs[job_id].state is Pending;
    &&& !jobs.contains_key(job_id) ==> r == Err::<Job, QueueError>(QueueError::JobNotFound(job_id))
    &&& jobs.contains_key(job_id) && !claimable ==> r == Err::<Job, QueueError>(
        QueueError::AlreadyClaimed(job_id),
    )
    &&& !claimable ==> after.jobs() == jobs && after.pending() == before.pending()
    &&& claimable ==> {
        let claimed = with_state(jobs[job_id], StateView::Claimed { consumer, claimed_at: now });
        &&& r matches Ok(job) && job@ == claimed
        &&& after.jobs() == jobs.insert(job_id, claimed)
        &&& after.pending() == before.pending().filter(other_than(job_id))
    }
}

/// An ack of `job_id`, answered with `r`, takes the store from `before` to
/// `after`: a claimed job becomes `Completed` and keeps `result`; any other job
/// is refused.
pub open spec fn ack_spec(
    before: JobStore,
    after: JobStore,
    job_id: JobId,
    result: Option<Seq<u8>>,
    r: Result<(), QueueError>,
) -> bool {
    let jobs = before.jobs();
    let claimed = jobs.contains_key(job_id) && jobs[job_id].state is Claimed;
    &&& !jobs.contains_key(job_id) ==> r == Err::<(), QueueError>(QueueError::JobNotFound(job_id))
    &&& jobs.contains_key(job_id) && !claimed ==> (r matches Err(QueueError::Connection(m)) && m@
        == not_claimed_text(job_id))
    &&& claimed ==> r is Ok && after.jobs() == jobs.insert(
        job_id,
        with_state(jobs[job_id], StateView::Completed { result }),
    )
    &&& !claimed ==> after.jobs() == jobs
    &&& after.pending() == before.pending()
}

/// A nack of `job_id`, answered with `r`, takes the store from `before` to
/// `after`: a claimed job becomes `Pending` again at the back of the queue; any
/// other job is refused.
pub open spec fn nack_spec(before: JobStore, after: JobStore, job_id: JobId, r: Result<(), QueueError>) -> bool {
    let jobs = before.jobs();
    let claimed = jobs.contains_key(job_id) && jobs[job_id].state is Claimed;
    &&& !jobs.contains_key(job_id) ==> r == Err::<(), QueueError>(QueueError::JobNotFound(job_id))
    &&& jobs.contains_key(job_id) && !claimed ==> (r matches Err(QueueError::Connection(m)) && m@
        == not_claimed_text(job_id))
    &&& claimed ==> r is Ok && after.jobs() == jobs.insert(
        job_id,
        with_state(jobs[job_id], StateView::Pending),
    ) && after.pending() == before.pending().push(job_id)
    &&& !claimed ==> after.jobs() == jobs && after.pending() == before.pending()
}

/// Reaping at time `now` with a claim timeout of `timeout` nanoseconds, which
/// returned `reaped`, takes the store from `before` to `after`: the stale claims,
/// in increasing identifier order, are handed back to the end of the queue.
pub open spec fn reap_spec(before: JobStore, after: JobStore, timeout: u64, now: u64, reaped: Seq<JobId>) -> bool {
    &&& forall|a: int, b: int| 0 <= a < b < reaped.len() ==> reaped[a] < reaped[b]
    &&& forall|id: JobId|
        reaped.contains(id) <==> (before.jobs().contains_key(id) && is_stale(
            before.jobs()[id],
            timeout,
            now,
        ))
    &&& after.jobs() == after_reap(before.jobs(), timeout, now)
    &&& after.pending() == before.pending() + reaped
}

/// The store after an enqueue that returned `job`: the job is added as
/// `Pending` at the back of the queue.
pub open spec fn enqueue_spec(before: JobStore, after: JobStore, job: Job) -> bool {
    &&& job.state is Pending
    &&& after.jobs() == before.jobs().insert(job.id, job@)
    &&& after.pending() == before.pending().push(job.id)
}

/// The result a completed job was acknowledged with, or `None` while the job
/// is missing or not completed.
pub open spec fn completed_result_of(jobs: Map<JobId, JobView>, id: JobId) -> Option<Option<Seq<u8>>> {
    if jobs.contains_key(id) && jobs[id].state is Completed {
        Some(jobs[id].state->Completed_result)
    } else {
        None
    }
}

/// In-memory job store with FIFO ordering of pending jobs.
pub struct JobStore {
    jobs: BTreeMap<JobId, Job>,
    pending_queue: VecDeque<JobId>,
    clock: Instant,
    /// The latest reading of `clock` handed out, in nanoseconds since `clock`.
    last_reading: u64,
}

impl JobStore {
    /// The jobs, by identifier.
    pub closed spec fn jobs(&self) -> Map<JobId, JobView> {
        self.jobs@.map_values(|j: Job| j@)
    }

    /// Identifiers of pending jobs, oldest first.
    pub closed spec fn pending(&self) -> Seq<JobId> {
        self.pending_queue@
    }

    /// The store's clock: its latest reading, in nanoseconds since the store was
    /// made. Every time the store stamps is a reading of this clock, and readings
    /// never go back.
    pub closed spec fn clock(&self) -> u64 {
        self.last_reading
    }

    /// Every time stamped on a job (its creation, its claim) is no later than the
    /// store's clock.
    pub open spec fn stamps_within_clock(&self) -> bool {
        forall|id: JobId| #[trigger]
            self.jobs().contains_key(id) ==> self.jobs()[id].created_at <= self.clock() && (
            self.jobs()[id].state matches StateView::Claimed { claimed_at, .. } ==> claimed_at
                <= self.clock())
    }

    /// Each job is stored under its own identifier, and the pending queue holds
    /// exactly the identifiers of the jobs in state `Pending`.
    pub open spec fn wf(&self) -> bool {
        &&& forall|id: JobId| #[trigger]
            self.jobs().contains_key(id) ==> self.jobs()[id].id == id
        &&& forall|id: JobId|
            #[trigger] self.pending().contains(id) <==> (self.jobs().contains_key(id)
                && self.jobs()[id].state is Pending)
    }

    /// An empty store.
    pub fn new() -> (store: JobStore)
        ensures
            store.wf(),
            store.jobs() == Map::<JobId, JobView>::empty(),
            store.pending() == Seq::<JobId>::empty(),
            store.clock() == 0,
            store.stamps_within_clock(),
    {
        let store = JobStore {
            jobs: BTreeMap::new(),
            pending_queue: VecDeque::new(),
            clock: clock_origin(),
            last_reading: 0,
        };
        assert(store.jobs() =~= Map::<JobId, JobView>::empty());
        store
    }

    /// Read the store's clock: nanoseconds since the store was made, saturated
    /// to `u64`. The reading comes from the monotonic clock, so its value is not
    /// promised, only that it is no earlier than any reading before it.
    fn clock_reading(&mut self) -> (now: u64)
        ensures
            now >= old(self).clock(),
            final(self).clock() == now,
            final(self).jobs() == old(self).jobs(),
            final(self).pending() == old(self).pending(),
    {
        let elapsed = elapsed_since(&self.clock);
        let nanos = duration_nanos(&elapsed);
        let reading = if nanos > 0xffff_ffff_ffff_ffffu128 {
            0xffff_ffff_ffff_ffffu64
        } else {
            nanos as u64
        };
        let now = if reading < self.last_reading {
            self.last_reading
        } else {
            reading
        };
        self.last_reading = now;
        now
    }

    /// Drop every occurrence of `job_id` from the pending queue, keeping the order
    /// of the others.
    fn remove_from_pending(&mut self, job_id: JobId)
        ensures
            final(self).jobs() == old(self).jobs(),
            final(self).pending() == old(self).pending().filter(other_than(job_id)),
            final(self).clock() == old(self).clock(),
            old(self).pending().no_duplicates() ==> final(self).pending().no_duplicates(),
    {
        let ghost pred = other_than(job_id);
        let mut kept: VecDeque<JobId> = VecDeque::new();
        let n = self.pending_queue.len();
        let mut i: usize = 0;
        while i < n
            invariant
                n == self.pending_queue@.len(),
                i <= n,
                kept@ == self.pending_queue@.take(i as int).filter(pred),
                pred == other_than(job_id),
            decreases n - i,
        {
            let x = self.pending_queue[i];
            let ghost prefix = self.pending_queue@.take(i + 1);
            let ghost before = kept@;
            if x != job_id {
                kept.push_back(x);
            }
            proof {
                reveal_with_fuel(Seq::<_>::filter, 2);
                assert(prefix.drop_last() =~= self.pending_queue@.take(i as int));
                assert(prefix.last() == x);
                assert(prefix.drop_last().filter(pred) == before);
                if x != job_id {
                    assert(prefix.filter(pred) == before.push(x));
                } else {
                    assert(prefix.filter(pred) == before);
                }
            }
            i = i + 1;
        }
        assert(self.pending_queue@.take(n as int) =~= self.pending_queue@);
        proof {
            if self.pending_queue@.no_duplicates() {
                lemma_filter_no_duplicates(self.pending_queue@, pred);
            }
        }
        self.pending_queue = kept;
    }

    /// Add a job in state `Pending` under a given identifier.
    fn insert_pending(&mut self, job: Job)
        requires
            old(self).wf(),
            job.state is Pending,
        ensures
            final(self).wf(),
            final(self).jobs() == old(self).jobs().insert(job.id, job@),
            final(self).pending() == old(self).pending().push(job.id),
            final(self).clock() == old(self).clock(),
            old(self).pending().no_duplicates() && !old(self).pending().contains(job.id)
                ==> final(self).pending().no_duplicates(),
    {
        let id = job.id;
        proof {
            if old(self).pending().no_duplicates() && !old(self).pending().contains(id) {
                lemma_push_keeps_ids_distinct(old(self).pending(), id);
            }
        }
        let ghost jv = job@;
        self.jobs.insert(id, job);
        self.pending_queue.push_back(id);
        assert(self.jobs() =~= old(self).jobs().insert(id, jv));
        assert forall|x: JobId| #[trigger]
            self.pending().contains(x) <==> (self.jobs().contains_key(x)
                && self.jobs()[x].state is Pending) by {
            if x != id {
                if old(self).pending().contains(x) {
                    let k = choose|k: int| 0 <= k < old(self).pending().len() && old(self).pending()[k] == x;
                    assert(self.pending()[k] == x);
                }
                if self.pending().contains(x) {
                    let k = choose|k: int| 0 <= k < self.pending().len() && self.pending()[k] == x;
                    assert(old(self).pending()[k] == x);
                }
            } else {
                assert(self.pending()[self.pending().len() - 1] == x);
            }
        }
    }

    /// Add a new job in state `Pending` and return it.
    pub fn enqueue(&mut self, payload: Vec<u8>, priority: u8, producer: PeerId) -> (job: Job)
        requires
            old(self).wf(),
        ensures
            final(self).wf(),
            job.payload@ == payload@,
            job.priority == priority,
            job.producer == producer,
            (job.id >> 76u128) & 0xfu128 == 4,
            (job.id >> 62u128) & 0x3u128 == 2,
            enqueue_spec(*old(self), *final(self), job),
            old(self).pending().no_duplicates() && !old(self).pending().contains(job.id)
                ==> final(self).pending().no_duplicates(),
            job.created_at >= old(self).clock(),
            final(self).clock() == job.created_at,
            old(self).stamps_within_clock() ==> final(self).stamps_within_clock(),
    {
        let now = self.clock_reading();
        let job = Job {
            id: fresh_job_id(),
            payload,
            priority,
            created_at: now,
            state: JobState::Pending,
            producer,
        };
        let result = job.duplicate();
        self.insert_pending(job);
        result
    }

    /// Claim a pending job for `consumer` at time `now`.
    pub fn try_claim_at(&mut self, job_id: JobId, consumer: PeerId, now: u64) -> (r: Result<
        Job,
        QueueError,
    >)
        requires
            old(self).wf(),
        ensures
            final(self).wf(),
            claim_spec(*old(self), *final(self), job_id, consumer, now, r),
            old(self).pending().no_duplicates() ==> final(self).pending().no_duplicates(),
            final(self).clock() == if now > old(self).clock() {
                now
            } else {
                old(self).clock()
            },
            old(self).stamps_within_clock() ==> final(self).stamps_within_clock(),
    {
        if now > self.last_reading {
            self.last_reading = now;
        }
        assert(self.jobs() == old(self).jobs() && self.pending() == old(self).pending());
        let current = match self.jobs.get(&job_id) {
            None => return Err(QueueError::JobNotFound(job_id)),
            Some(job) => job,
        };
        match current.state {
            JobState::Pending => {},
            _ => return Err(QueueError::AlreadyClaimed(job_id)),
        }
        let mut claimed = current.duplicate();
        claimed.state = JobState::Claimed { consumer, claimed_at: now };
        let result = claimed.duplicate();
        let ghost cv = claimed@;
        self.jobs.insert(job_id, claimed);
        assert(self.jobs() =~= old(self).jobs().insert(job_id, cv));
        self.remove_from_pending(job_id);
        proof {
            assert forall|x: JobId| #[trigger] self.jobs().contains_key(x) implies self.jobs()[x].id == x by {
                assert(old(self).jobs().contains_key(job_id));
                if x != job_id {
                    assert(old(self).jobs().contains_key(x));
                }
            }
            let pred = other_than(job_id);
            assert forall|x: JobId| #[trigger]
                self.pending().contains(x) <==> (self.jobs().contains_key(x)
                    && self.jobs()[x].state is Pending) by {
                let p = old(self).pending();
                if self.pending().contains(x) {
                    lemma_filter_keeps_only(p, pred, x);
                }
                if x != job_id && p.contains(x) {
                    let k = choose|k: int| 0 <= k < p.len() && p[k] == x;
                    p.lemma_filter_contains(pred, k);
                }
            }
        }
        Ok(result)
    }

    /// Claim a pending job for `consumer`, stamped with the store's clock.
    pub fn try_claim(&mut self, job_id: JobId, consumer: PeerId) -> (r: Result<Job, QueueError>)
        requires
            old(self).wf(),
        ensures
            final(self).wf(),
            exists|now: u64| claim_spec(*old(self), *final(self), job_id, consumer, now, r),
            exists|now: u64|
                now >= old(self).clock() && final(self).clock() == now && #[trigger] claim_spec(
                    *old(self),
                    *final(self),
                    job_id,
                    consumer,
                    now,
                    r,
                ),
            old(self).pending().no_duplicates() ==> final(self).pending().no_duplicates(),
            old(self).stamps_within_clock() ==> final(self).stamps_within_clock(),
    {
        let ghost before = *self;
        let now = self.clock_reading();
        let r = self.try_claim_at(job_id, consumer, now);
        assert(claim_spec(before, *self, job_id, consumer, now, r));
        r
    }

    /// Mark a claimed job as completed, keeping the consumer's result with it.
    pub fn ack(&mut self, job_id: JobId, result: Option<Vec<u8>>) -> (r: Result<(), QueueError>)
        requires
            old(self).wf(),
        ensures
            final(self).wf(),
            ack_spec(*old(self), *final(self), job_id, bytes_view(result), r),
            old(self).pending().no_duplicates() ==> final(self).pending().no_duplicates(),
            final(self).clock() == old(self).clock(),
            old(self).stamps_within_clock() ==> final(self).stamps_within_clock(),
    {
        let current = match self.jobs.get(&job_id) {
            None => return Err(QueueError::JobNotFound(job_id)),
            Some(job) => job,
        };
        match current.state {
            JobState::Claimed { .. } => {},
            _ => {
                let id_text = uuid_string(job_id);
                let head = concat_str("job ", id_text.as_str());
                let message = concat_str(head.as_str(), " is not in Claimed state");
                return Err(QueueError::Connection(message));
            },
        }
        let mut done = current.duplicate();
        done.state = JobState::Completed { result };
        let ghost dv = done@;
        self.jobs.insert(job_id, done);
        assert(self.jobs() =~= old(self).jobs().insert(job_id, dv));
        assert forall|x: JobId| #[trigger]
            self.pending().contains(x) <==> (self.jobs().contains_key(x)
                && self.jobs()[x].state is Pending) by {
            assert(old(self).pending().contains(x) <==> (old(self).jobs().contains_key(x)
                && old(self).jobs()[x].state is Pending));
        }
        assert forall|x: JobId| #[trigger] self.jobs().contains_key(x) implies self.jobs()[x].id == x by {
            assert(old(self).jobs().contains_key(job_id));
            if x != job_id {
                assert(old(self).jobs().contains_key(x));
            }
        }
        Ok(())
    }

    /// Mark a claimed job as failed and re-enqueue it as `Pending`.
    pub fn nack(&mut self, job_id: JobId, reason: String) -> (r: Result<(), QueueError>)
        requires
            old(self).wf(),
        ensures
            final(self).wf(),
            nack_spec(*old(self), *final(self), job_id, r),
            old(self).pending().no_duplicates() ==> final(self).pending().no_duplicates(),
            final(self).clock() == old(self).clock(),
            old(self).stamps_within_clock() ==> final(self).stamps_within_clock(),
    {
        let current = match self.jobs.get(&job_id) {
            None => return Err(QueueError::JobNotFound(job_id)),
            Some(job) => job,
        };
        match current.state {
            JobState::Claimed { .. } => {},
            _ => {
                let id_text = uuid_string(job_id);
                let head = concat_str("job ", id_text.as_str());
                let message = concat_str(head.as_str(), " is not in Claimed state");
                return Err(QueueError::Connection(message));
            },
        }
        let mut again = current.duplicate();
        again.state = JobState::Pending;
        self.insert_pending(again);
        Ok(())
    }

    /// The result a completed job was acknowledged with: what a producer waiting
    /// on the job receives. `None` while the job is missing or not completed.
    pub fn completed_result(&self, job_id: JobId) -> (r: Option<Option<Vec<u8>>>)
        ensures
            match r {
                Some(result) => completed_result_of(self.jobs(), job_id) == Some(bytes_view(result)),
                None => completed_result_of(self.jobs(), job_id) is None,
            },
    {
        match self.jobs.get(&job_id) {
            Some(job) => match &job.state {
                JobState::Completed { result } => Some(duplicate_bytes(result)),
                _ => None,
            },
            None => None,
        }
    }

    /// Look up a job by identifier.
    pub fn get(&self, job_id: JobId) -> (r: Option<Job>)
        ensures
            r is Some <==> self.jobs().contains_key(job_id),
            r matches Some(job) ==> job@ == self.jobs()[job_id],
    {
        match self.jobs.get(&job_id) {
            Some(job) => Some(job.duplicate()),
            None => None,
        }
    }

    /// The identifiers of all jobs, in increasing order.
    fn ids_in_order(&self) -> (ids: Vec<JobId>)
        ensures
            forall|id: JobId| ids@.contains(id) <==> self.jobs().contains_key(id),
            forall|a: int, b: int| 0 <= a < b < ids@.len() ==> ids@[a] < ids@[b],
    {
        let mut ids: Vec<JobId> = Vec::new();
        for k in it: self.jobs.keys()
            invariant
                ids@.len() == it.index(),
                it.seq() == spec_keys_iter(&self.jobs).remaining(),
                forall|j: int| 0 <= j < ids@.len() ==> ids@[j] == *it.seq()[j],
        {
            ids.push(*k);
        }
        proof {
            let rem = spec_keys_iter(&self.jobs).remaining();
            assert(ids@ =~= rem.unref());
            assert(self.jobs().dom() =~= self.jobs@.dom());
            assert forall|id: JobId| ids@.contains(id) <==> self.jobs().contains_key(id) by {
                assert(rem.unref().to_set().contains(id) <==> rem.unref().contains(id));
            }
            assert(obeys_cmp::<u128>());
            assert(obeys_cmp::<&u128>());
            assert(increasing_seq(rem));
            assert forall|a: int, b: int| 0 <= a < b < ids@.len() implies ids@[a] < ids@[b] by {
                assert((&rem[a]).cmp_spec(&rem[b]) is Less);
            }
        }
        ids
    }

    /// Hand back every claim that is stale at `now`: those jobs become `Pending`
    /// and are appended to the pending queue in increasing identifier order.
    /// Returns their identifiers, in that order.
    pub fn reap_stale_at(&mut self, timeout: u64, now: u64) -> (reaped: Vec<JobId>)
        requires
            old(self).wf(),
        ensures
            final(self).wf(),
            reap_spec(*old(self), *final(self), timeout, now, reaped@),
            old(self).pending().no_duplicates() ==> final(self).pending().no_duplicates(),
            final(self).clock() == if now > old(self).clock() {
                now
            } else {
                old(self).clock()
            },
            old(self).stamps_within_clock() ==> final(self).stamps_within_clock(),
    {
        if now > self.last_reading {
            self.last_reading = now;
        }
        let ghost clock = self.clock();
        assert(self.jobs() == old(self).jobs() && self.pending() == old(self).pending());
        let ids = self.ids_in_order();
        let ghost old_jobs = self.jobs();
        let ghost target = after_reap(old_jobs, timeout, now);
        let mut reaped: Vec<JobId> = Vec::new();
        let n = ids.len();
        let mut i: usize = 0;
        while i < n
            invariant
                n == ids@.len(),
                i <= n,
                old_jobs == old(self).jobs(),
                self.clock() == clock,
                target == after_reap(old_jobs, timeout, now),
                self.pending() == old(self).pending(),
                forall|id: JobId| ids@.contains(id) <==> old_jobs.contains_key(id),
                forall|a: int, b: int| 0 <= a < b < ids@.len() ==> ids@[a] < ids@[b],
                self.jobs().dom() == old_jobs.dom(),
                forall|id: JobId| #[trigger]
                    self.jobs().contains_key(id) ==> self.jobs()[id] == (if ids@.take(
                        i as int,
                    ).contains(id) {
                        target[id]
                    } else {
                        old_jobs[id]
                    }),
                forall|a: int, b: int| 0 <= a < b < reaped@.len() ==> reaped@[a] < reaped@[b],
                forall|a: int| 0 <= a < reaped@.len() ==> ids@.take(i as int).contains(reaped@[a]),
                forall|id: JobId|
                    reaped@.contains(id) <==> (ids@.take(i as int).contains(id)
                        && is_stale(old_jobs[id], timeout, now)),
            decreases n - i,
        {
            let id = ids[i];
            let ghost rb = reaped@;
            proof {
                assert(ids@.contains(id));
                assert(!ids@.take(i as int).contains(id)) by {
                    if ids@.take(i as int).contains(id) {
                        let k = choose|k: int| 0 <= k < i && ids@.take(i as int)[k] == id;
                        assert(ids@[k] < ids@[i as int]);
                    }
                }
                assert(ids@.take(i + 1) =~= ids@.take(i as int).push(id));
                assert forall|a: int| 0 <= a < reaped@.len() implies reaped@[a] < id by {
                    let x = reaped@[a];
                    assert(ids@.take(i as int).contains(x));
                    let k = choose|k: int| 0 <= k < i && ids@.take(i as int)[k] == x;
                    assert(ids@[k] < ids@[i as int]);
                }
            }
            proof {
                assert(self.jobs().contains_key(id));
                assert(self.jobs()[id] == old_jobs[id]);
            }
            let stale = match self.jobs.get(&id) {
                Some(job) => match job.state {
                    JobState::Claimed { claimed_at, .. } => now > claimed_at && now - claimed_at
                        > timeout,
                    _ => false,
                },
                None => false,
            };
            assert(stale == is_stale(old_jobs[id], timeout, now));
            if stale {
                let current = match self.jobs.get(&id) {
                    Some(job) => job,
                    None => {
                        proof {
                            assert(false);
                        }
                        return reaped;
                    },
                };
                let mut again = current.duplicate();
                again.state = JobState::Pending;
                let ghost av = again@;
                let ghost before = self.jobs();
                self.jobs.insert(id, again);
                reaped.push(id);
                proof {
                    assert(av == target[id]);
                    assert(self.jobs() =~= before.insert(id, av));
                }
            }
            proof {
                let t = ids@.take(i + 1);
                assert forall|x: JobId| #[trigger]
                    self.jobs().contains_key(x) implies self.jobs()[x] == (if t.contains(x) {
                        target[x]
                    } else {
                        old_jobs[x]
                    }) by {
                    if x == id {
                        assert(t[i as int] == x);
                    }
                }
                assert(t == ids@.take(i as int).push(id));
                if stale {
                    assert(reaped@ == rb.push(id));
                } else {
                    assert(reaped@ == rb);
                }
                assert forall|x: JobId|
                    reaped@.contains(x) <==> (t.contains(x) && is_stale(old_jobs[x], timeout, now)) by {
                    assert(rb.contains(x) <==> (ids@.take(i as int).contains(x) && is_stale(old_jobs[x], timeout, now)));
                }
            }
            i = i + 1;
        }
        proof {
            assert(ids@.take(n as int) =~= ids@);
            assert(self.jobs() =~= target);
        }
        let ghost mid_pending = self.pending();
        let ghost mid_jobs = self.jobs();
        let m = reaped.len();
        let mut j: usize = 0;
        while j < m
            invariant
                m == reaped@.len(),
                j <= m,
                self.pending() == mid_pending + reaped@.take(j as int),
                self.jobs() == mid_jobs,
                self.clock() == clock,
            decreases m - j,
        {
            self.pending_queue.push_back(reaped[j]);
            assert(reaped@.take(j + 1) =~= reaped@.take(j as int).push(reaped@[j as int]));
            j = j + 1;
        }
        proof {
            assert(reaped@.take(m as int) =~= reaped@);
            let p0 = old(self).pending();
            let p1 = self.pending();
            assert forall|x: JobId| #[trigger] self.jobs().contains_key(x) implies self.jobs()[x].id == x by {
                assert(old_jobs.contains_key(x));
            }
            assert forall|x: JobId| #[trigger]
                p1.contains(x) <==> (self.jobs().contains_key(x) && self.jobs()[x].state is Pending) by {
                assert(p0.contains(x) <==> (old_jobs.contains_key(x) && old_jobs[x].state is Pending));
                if p1.contains(x) {
                    let k = choose|k: int| 0 <= k < p1.len() && p1[k] == x;
                    if k < p0.len() {
                        assert(p0[k] == x);
                    } else {
                        assert(reaped@[k - p0.len()] == x);
                    }
                }
                if self.jobs().contains_key(x) && self.jobs()[x].state is Pending {
                    if is_stale(old_jobs[x], timeout, now) {
                        assert(reaped@.contains(x));
                        let k = choose|k: int| 0 <= k < reaped@.len() && reaped@[k] == x;
                        assert(p1[p0.len() + k] == x);
                    } else {
                        assert(p0.contains(x));
                        let k = choose|k: int| 0 <= k < p0.len() && p0[k] == x;
                        assert(p1[k] == x);
                    }
                }
            }
        }
        proof {
            if old(self).pending().no_duplicates() {
                assert(reap_spec(*old(self), *self, timeout, now, reaped@));
                lemma_reap_keeps_ids_distinct(*old(self), *self, timeout, now, reaped@);
            }
        }
        proof {
            if old(self).stamps_within_clock() {
                assert forall|id: JobId| #[trigger]
                    self.jobs().contains_key(id) implies self.jobs()[id].created_at <= self.clock() && (
                    self.jobs()[id].state matches StateView::Claimed { claimed_at, .. } ==> claimed_at
                        <= self.clock()) by {
                    assert(old_jobs.contains_key(id));
                }
            }
        }
        reaped
    }

    /// Find claimed jobs whose claim is stale by the store's clock and re-enqueue them.
    pub fn reap_stale(&mut self, timeout_nanos: u64) -> (reaped: Vec<JobId>)
        requires
            old(self).wf(),
        ensures
            final(self).wf(),
            exists|now: u64| reap_spec(*old(self), *final(self), timeout_nanos, now, reaped@),
            exists|now: u64|
                now >= old(self).clock() && final(self).clock() == now && #[trigger] reap_spec(
                    *old(self),
                    *final(self),
                    timeout_nanos,
                    now,
                    reaped@,
                ),
            old(self).stamps_within_clock() ==> final(self).stamps_within_clock(),
            old(self).pending().no_duplicates() ==> final(self).pending().no_duplicates(),
    {
        let ghost before = *self;
        let now = self.clock_reading();
        let reaped = self.reap_stale_at(timeout_nanos, now);
        assert(reap_spec(before, *self, timeout_nanos, now, reaped@));
        reaped
    }

    /// Number of entries in the pending queue.
    pub fn pending_count(&self) -> (n: usize)
        ensures
            n == self.pending().len(),
            self.wf() && self.pending().no_duplicates() ==> n == pending_ids(self.jobs()).len(),
    {
        proof {
            if self.wf() && self.pending().no_duplicates() {
                lemma_pending_count_is_pending_jobs(*self);
            }
        }
        self.pending_queue.len()
    }
}

/// Identifiers of the jobs in state `Pending`.
pub open spec fn pending_ids(jobs: Map<JobId, JobView>) -> Set<JobId> {
    jobs.dom().filter(|id: JobId| jobs[id].state is Pending)
}

/// Once a job is claimed, a further claim of it is refused as already claimed,
/// and leaves the store as it was.
pub proof fn lemma_claim_is_exclusive(
    s0: JobStore,
    s1: JobStore,
    s2: JobStore,
    id: JobId,
    first: PeerId,
    t1: u64,
    job: Job,
    second: PeerId,
    t2: u64,
    r: Result<Job, QueueError>,
)
    requires
        claim_spec(s0, s1, id, first, t1, Ok(job)),
        claim_spec(s1, s2, id, second, t2, r),
    ensures
        r == Err::<Job, QueueError>(QueueError::AlreadyClaimed(id)),
        s2.jobs() == s1.jobs(),
        s2.pending() == s1.pending(),
{
}

/// A job that is claimed and then nacked is back exactly as it was enqueued,
/// at the end of the pending queue.
pub proof fn lemma_nack_hands_job_back(
    s0: JobStore,
    s1: JobStore,
    s2: JobStore,
    id: JobId,
    consumer: PeerId,
    now: u64,
    job: Job,
    r: Result<(), QueueError>,
)
    requires
        claim_spec(s0, s1, id, consumer, now, Ok(job)),
        nack_spec(s1, s2, id, r),
    ensures
        r is Ok,
        s2.jobs() == s0.jobs(),
        s2.pending() == s0.pending().filter(other_than(id)).push(id),
{
    let j = s0.jobs()[id];
    assert(with_state(with_state(j, StateView::Claimed { consumer, claimed_at: now }), StateView::Pending) == j);
    assert(s2.jobs() =~= s0.jobs());
}

/// A completed job stays completed: a claim is refused as already claimed, and
/// an ack or a nack is refused as not claimed, each leaving the jobs unchanged.
pub proof fn lemma_completed_job_is_settled(
    s: JobStore,
    after: JobStore,
    id: JobId,
    consumer: PeerId,
    now: u64,
    claim: Result<Job, QueueError>,
    result: Option<Seq<u8>>,
    ack: Result<(), QueueError>,
    nack: Result<(), QueueError>,
)
    requires
        s.jobs().contains_key(id),
        s.jobs()[id].state is Completed,
    ensures
        claim_spec(s, after, id, consumer, now, claim) ==> claim == Err::<Job, QueueError>(
            QueueError::AlreadyClaimed(id),
        ) && after.jobs() == s.jobs(),
        ack_spec(s, after, id, result, ack) ==> (ack matches Err(QueueError::Connection(m)) && m@
            == not_claimed_text(id)) && after.jobs() == s.jobs(),
        nack_spec(s, after, id, nack) ==> (nack matches Err(QueueError::Connection(m)) && m@
            == not_claimed_text(id)) && after.jobs() == s.jobs(),
{
}

/// A job that is claimed and then acknowledged with a result is completed and
/// holds that result, which is what the producer waiting on it receives.
pub proof fn lemma_acked_result_is_kept(
    s0: JobStore,
    s1: JobStore,
    s2: JobStore,
    id: JobId,
    consumer: PeerId,
    now: u64,
    job: Job,
    result: Option<Seq<u8>>,
    r: Result<(), QueueError>,
)
    requires
        claim_spec(s0, s1, id, consumer, now, Ok(job)),
        ack_spec(s1, s2, id, result, r),
    ensures
        r is Ok,
        completed_result_of(s2.jobs(), id) == Some(result),
{
}

/// A job that was just enqueued can be claimed, and the claim hands out its
/// payload and priority.
pub proof fn lemma_enqueued_job_is_claimable(
    s0: JobStore,
    s1: JobStore,
    s2: JobStore,
    job: Job,
    consumer: PeerId,
    now: u64,
    r: Result<Job, QueueError>,
)
    requires
        enqueue_spec(s0, s1, job),
        claim_spec(s1, s2, job.id, consumer, now, r),
    ensures
        r matches Ok(claimed) && claimed.payload@ == job.payload@ && claimed.priority
            == job.priority && claimed.producer == job.producer,
{
}

/// Every job that the reaper hands back can be claimed again.
pub proof fn lemma_reaped_job_is_claimable(
    s0: JobStore,
    s1: JobStore,
    s2: JobStore,
    timeout: u64,
    t: u64,
    reaped: Seq<JobId>,
    id: JobId,
    consumer: PeerId,
    now: u64,
    r: Result<Job, QueueError>,
)
    requires
        reap_spec(s0, s1, timeout, t, reaped),
        reaped.contains(id),
        claim_spec(s1, s2, id, consumer, now, r),
    ensures
        r is Ok,
{
    assert(s1.jobs().contains_key(id));
}

/// When no identifier is queued twice (which every store operation keeps, see
/// [`lemma_store_ops_keep_ids_distinct`]), the length of the pending queue (what
/// `pending_count` reports) is the number of jobs in state `Pending`.
pub proof fn lemma_pending_count_is_pending_jobs(s: JobStore)
    requires
        s.wf(),
        s.pending().no_duplicates(),
    ensures
        s.pending().len() == pending_ids(s.jobs()).len(),
{
    s.pending().unique_seq_to_set();
    assert(s.pending().to_set() =~= pending_ids(s.jobs()));
}

/// Filtering a sequence without duplicates leaves none.
proof fn lemma_filter_no_duplicates(s: Seq<JobId>, pred: spec_fn(JobId) -> bool)
    requires
        s.no_duplicates(),
    ensures
        s.filter(pred).no_duplicates(),
    decreases s.len(),
{
    reveal(Seq::filter);
    if s.len() > 0 {
        let rest = s.drop_last();
        assert(rest.no_duplicates());
        lemma_filter_no_duplicates(rest, pred);
        let sub = rest.filter(pred);
        if pred(s.last()) {
            if sub.contains(s.last()) {
                lemma_filter_keeps_only(rest, pred, s.last());
                let k = choose|k: int| 0 <= k < rest.len() && rest[k] == s.last();
                assert(s[k] == s[s.len() - 1]);
            }
            assert(s.filter(pred) == sub.push(s.last()));
            assert forall|i: int, j: int|
                0 <= i < sub.len() + 1 && 0 <= j < sub.len() + 1 && i != j implies sub.push(
                    s.last(),
                )[i] != sub.push(s.last())[j] by {
                if i == sub.len() {
                    assert(sub[j] != s.last());
                } else if j == sub.len() {
                    assert(sub[i] != s.last());
                }
            }
        }
    }
}

/// A claim keeps the pending queue free of repeated identifiers.
proof fn lemma_claim_keeps_ids_distinct(
    before: JobStore,
    after: JobStore,
    id: JobId,
    consumer: PeerId,
    now: u64,
    r: Result<Job, QueueError>,
)
    requires
        claim_spec(before, after, id, consumer, now, r),
        before.pending().no_duplicates(),
    ensures
        after.pending().no_duplicates(),
{
    lemma_filter_no_duplicates(before.pending(), other_than(id));
}

/// Appending an identifier that is not queued keeps the queue free of repeats.
proof fn lemma_push_keeps_ids_distinct(p: Seq<JobId>, id: JobId)
    requires
        p.no_duplicates(),
        !p.contains(id),
    ensures
        p.push(id).no_duplicates(),
{
    assert forall|i: int, j: int|
        0 <= i < p.len() + 1 && 0 <= j < p.len() + 1 && i != j implies p.push(id)[i] != p.push(
            id,
        )[j] by {
        if i == p.len() {
            assert(p[j] != id);
        } else if j == p.len() {
            assert(p[i] != id);
        }
    }
}

/// A nack keeps the pending queue free of repeated identifiers: the job it
/// hands back was claimed, so it was not queued.
proof fn lemma_nack_keeps_ids_distinct(before: JobStore, after: JobStore, id: JobId, r: Result<(), QueueError>)
    requires
        before.wf(),
        nack_spec(before, after, id, r),
        before.pending().no_duplicates(),
    ensures
        after.pending().no_duplicates(),
{
    if before.jobs().contains_key(id) && before.jobs()[id].state is Claimed {
        assert(!before.pending().contains(id));
        lemma_push_keeps_ids_distinct(before.pending(), id);
    }
}

/// Reaping keeps the pending queue free of repeated identifiers: each reaped
/// job was claimed, so it was not queued, and each is reaped once.
proof fn lemma_reap_keeps_ids_distinct(
    before: JobStore,
    after: JobStore,
    timeout: u64,
    now: u64,
    reaped: Seq<JobId>,
)
    requires
        before.wf(),
        reap_spec(before, after, timeout, now, reaped),
        before.pending().no_duplicates(),
    ensures
        after.pending().no_duplicates(),
{
    let p = before.pending();
    assert forall|i: int, j: int| 0 <= i < p.len() && 0 <= j < reaped.len() implies p[i]
        != reaped[j] by {
        let x = reaped[j];
        assert(reaped.contains(x));
        assert(before.jobs()[x].state is Claimed);
        if p[i] == x {
            assert(p.contains(x));
        }
    }
    assert(reaped.no_duplicates()) by {
        assert forall|i: int, j: int| 0 <= i < reaped.len() && 0 <= j < reaped.len() && i != j implies reaped[i] != reaped[j] by {
            if i < j {
                assert(reaped[i] < reaped[j]);
            } else {
                assert(reaped[j] < reaped[i]);
            }
        }
    }
    vstd::seq_lib::lemma_no_dup_in_concat(p, reaped);
}

/// No store operation queues an identifier twice: from a store whose pending
/// queue holds each identifier once, a claim, an ack, a nack or a reap leads to
/// such a store again, and so does an enqueue whose drawn identifier is not
/// already queued.
pub proof fn lemma_store_ops_keep_ids_distinct(
    before: JobStore,
    after: JobStore,
    id: JobId,
    consumer: PeerId,
    now: u64,
    claim: Result<Job, QueueError>,
    result: Option<Seq<u8>>,
    settled: Result<(), QueueError>,
    timeout: u64,
    reaped: Seq<JobId>,
    job: Job,
)
    requires
        before.wf(),
        before.pending().no_duplicates(),
    ensures
        claim_spec(before, after, id, consumer, now, claim) ==> after.pending().no_duplicates(),
        ack_spec(before, after, id, result, settled) ==> after.pending().no_duplicates(),
        nack_spec(before, after, id, settled) ==> after.pending().no_duplicates(),
        reap_spec(before, after, timeout, now, reaped) ==> after.pending().no_duplicates(),
        enqueue_spec(before, after, job) && !before.pending().contains(job.id)
            ==> after.pending().no_duplicates(),
{
    if claim_spec(before, after, id, consumer, now, claim) {
        lemma_claim_keeps_ids_distinct(before, after, id, consumer, now, claim);
    }
    if nack_spec(before, after, id, settled) {
        lemma_nack_keeps_ids_distinct(before, after, id, settled);
    }
    if reap_spec(before, after, timeout, now, reaped) {
        lemma_reap_keeps_ids_distinct(before, after, timeout, now, reaped);
    }
    if enqueue_spec(before, after, job) && !before.pending().contains(job.id) {
        lemma_push_keeps_ids_distinct(before.pending(), job.id);
    }
}

/// A claim taken at time `t1` and then looked at by the reaper at a later
/// reading `t2` is handed back exactly when it is more than `timeout`
/// nanoseconds old: the job is then `Pending` again; otherwise it stays claimed
/// by the same consumer with the same stamp.
pub proof fn lemma_reaper_judges_claim_age(
    s0: JobStore,
    s1: JobStore,
    s2: JobStore,
    id: JobId,
    consumer: PeerId,
    t1: u64,
    job: Job,
    timeout: u64,
    t2: u64,
    reaped: Seq<JobId>,
)
    requires
        claim_spec(s0, s1, id, consumer, t1, Ok(job)),
        reap_spec(s1, s2, timeout, t2, reaped),
        t2 >= t1,
    ensures
        reaped.contains(id) <==> t2 - t1 > timeout,
        t2 - t1 > timeout ==> s2.jobs()[id].state is Pending && s2.pending().contains(id),
        t2 - t1 <= timeout ==> s2.jobs()[id].state == (StateView::Claimed {
            consumer,
            claimed_at: t1,
        }),
{
    if t2 - t1 > timeout {
        assert(reaped.contains(id));
        let k = choose|k: int| 0 <= k < reaped.len() && reaped[k] == id;
        assert(s2.pending()[s1.pending().len() + k] == id);
    }
}

/// The reaper reads the store's clock no earlier than any stamp the store has
/// made, so it never sees a claim from the future: every claimed job has an age
/// of zero or more at the reaper's reading, and is stale exactly when that age
/// exceeds the timeout.
pub proof fn lemma_reaper_sees_claims_in_the_past(s: JobStore, now: u64, timeout: u64, id: JobId)
    requires
        s.stamps_within_clock(),
        now >= s.clock(),
        s.jobs().contains_key(id),
        s.jobs()[id].state is Claimed,
    ensures
        s.jobs()[id].state->claimed_at <= now,
        is_stale(s.jobs()[id], timeout, now) <==> now - s.jobs()[id].state->claimed_at > timeout,
{
}

} // verus!
