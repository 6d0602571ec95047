//! The decisions of the queue's producer and consumer nodes: how a producer
//! answers requests on a direct stream, what a consumer makes of a claim
//! response, and what a consumer does with each gossip signal.

use vstd::prelude::*;

use crate::error::{concat_str, error_text, JobId, QueueError};
use crate::protocol::{GossipSignal, QueueRequest, QueueResponse};
use crate::store::{
    ack_spec, bytes_view, claim_spec, nack_spec, with_state, Job, JobStore, PeerId, StateView,
};

verus! {

/// The message of the error response to a nack.
pub open spec fn nacked_text(reason: Seq<char>) -> Seq<char> {
    "job nacked: "@ + reason
}

// ---------------------------------------------------------------------------
// Producer side
// ---------------------------------------------------------------------------

/// The answer to a claim request for `job_id`, given what the store's claim
/// returned: the payload when granted, `AlreadyClaimed` when the job is taken,
/// and an `Error` carrying the store's message otherwise.
pub open spec fn responds_to_claim(
    job_id: JobId,
    claim: Result<Job, QueueError>,
    r: Result<QueueResponse, QueueError>,
) -> bool {
    match claim {
        Ok(job) => r matches Ok(QueueResponse::Granted { job_id: granted, payload, priority })
            && granted == job_id && payload@ == job.payload@ && priority == job.priority,
        Err(QueueError::AlreadyClaimed(_)) => r == Ok::<QueueResponse, QueueError>(
            QueueResponse::AlreadyClaimed { job_id },
        ),
        Err(e) => r matches Ok(QueueResponse::Error { message }) && message@ == error_text(e),
    }
}

/// Whether an answer stands for success or for the store's error.
pub open spec fn outcome_of(r: Result<QueueResponse, QueueError>) -> Result<(), QueueError> {
    match r {
        Ok(_) => Ok(()),
        Err(e) => Err(e),
    }
}

/// How a producer's store changes, and what it answers (`r`), when peer
/// `remote` sends `request` as the first message of a direct stream.
pub open spec fn answers(
    before: JobStore,
    after: JobStore,
    remote: PeerId,
    request: QueueRequest,
    r: Result<QueueResponse, QueueError>,
) -> bool {
    match request {
        QueueRequest::Claim { job_id } => exists|now: u64, claim: Result<Job, QueueError>|
            #[trigger] claim_spec(before, after, job_id, remote, now, claim) && responds_to_claim(
                job_id,
                claim,
                r,
            ),
        QueueRequest::Ack { job_id, result } => {
            &&& ack_spec(before, after, job_id, bytes_view(result), outcome_of(r))
            &&& r is Ok ==> r == Ok::<QueueResponse, QueueError>(QueueResponse::Acked { job_id })
        },
        QueueRequest::Nack { job_id, reason } => {
            &&& nack_spec(before, after, job_id, outcome_of(r))
            &&& r is Ok ==> (r matches Ok(QueueResponse::Error { message }) && message@
                == nacked_text(reason@))
        },
    }
}

/// Answer the first request of a direct stream from peer `remote`.
///
/// A claim is answered with the payload when it is granted, with
/// `AlreadyClaimed` when the job is taken, and with an `Error` carrying the store's
/// message otherwise. An ack hands its result to the store, which keeps it with
/// the completed job, and is answered with `Acked`; a nack is answered with an
/// `Error` that echoes the reason. When the store refuses either, the error is
/// returned and nothing is sent.
pub fn answer_request(store: &mut JobStore, remote: PeerId, request: QueueRequest) -> (r: Result<
    QueueResponse,
    QueueError,
>)
    requires
        old(store).wf(),
    ensures
        final(store).wf(),
        answers(*old(store), *final(store), remote, request, r),
{
    match request {
        QueueRequest::Claim { job_id } => {
            match store.try_claim(job_id, remote) {
                Ok(job) => Ok(
                    QueueResponse::Granted { job_id, payload: job.payload, priority: job.priority },
                ),
                Err(QueueError::AlreadyClaimed(_)) => Ok(QueueResponse::AlreadyClaimed { job_id }),
                Err(e) => Ok(QueueResponse::Error { message: e.message() }),
            }
        },
        QueueRequest::Ack { job_id, result } => {
            store.ack(job_id, result)?;
            Ok(QueueResponse::Acked { job_id })
        },
        QueueRequest::Nack { job_id, reason } => {
            store.nack(job_id, reason.clone())?;
            Ok(QueueResponse::Error { message: concat_str("job nacked: ", reason.as_str()) })
        },
    }
}

/// Answer the request that follows a granted claim on the same stream: an ack
/// or a nack is answered as [`answer_request`] does; another claim gets no reply.
pub fn answer_followup(store: &mut JobStore, remote: PeerId, request: QueueRequest) -> (r: Result<
    Option<QueueResponse>,
    QueueError,
>)
    requires
        old(store).wf(),
    ensures
        final(store).wf(),
        request is Claim ==> r == Ok::<Option<QueueResponse>, QueueError>(None) && *final(store)
            == *old(store),
        !(request is Claim) ==> match r {
            Ok(Some(resp)) => answers(*old(store), *final(store), remote, request, Ok(resp)),
            Ok(None) => false,
            Err(e) => answers(*old(store), *final(store), remote, request, Err(e)),
        },
{
    if let QueueRequest::Claim { .. } = request {
        return Ok(None);
    }
    match answer_request(store, remote, request) {
        Ok(resp) => Ok(Some(resp)),
        Err(e) => Err(e),
    }
}

/// The announcement of a newly enqueued job: its identifier, producer and
/// priority, stamped with `timestamp_ms` (milliseconds since the Unix epoch).
pub fn announce_job(job: &Job, timestamp_ms: u64) -> (signal: GossipSignal)
    ensures
        signal == (GossipSignal::JobAvailable {
            job_id: job.id,
            producer: job.producer,
            priority: job.priority,
            timestamp_ms,
        }),
{
    GossipSignal::JobAvailable {
        job_id: job.id,
        producer: job.producer,
        priority: job.priority,
        timestamp_ms,
    }
}

/// The announcement that re-offers a job whose claim went stale: it is
/// announced by `producer` with priority 0, whatever its own priority was.
pub fn announce_reaped(job_id: JobId, producer: PeerId, timestamp_ms: u64) -> (signal: GossipSignal)
    ensures
        signal == (GossipSignal::JobAvailable { job_id, producer, priority: 0, timestamp_ms }),
{
    GossipSignal::JobAvailable { job_id, producer, priority: 0, timestamp_ms }
}

/// The announcement a consumer makes once a remote producer granted it a job.
pub fn announce_claim(job_id: JobId, me: PeerId) -> (signal: GossipSignal)
    ensures
        signal == (GossipSignal::JobClaimed { job_id, consumer: me }),
{
    GossipSignal::JobClaimed { job_id, consumer: me }
}

// ---------------------------------------------------------------------------
// Consumer side
// ---------------------------------------------------------------------------

/// What a consumer makes of the producer's answer to its claim: the granted
/// job's identifier, payload and priority, or the reason it got none.
pub fn claim_outcome(response: QueueResponse) -> (r: Result<(JobId, Vec<u8>, u8), QueueError>)
    ensures
        match response {
            QueueResponse::Granted { job_id, payload, priority } => r matches Ok((j, p, q)) && j
                == job_id && p@ == payload@ && q == priority,
            QueueResponse::AlreadyClaimed { job_id } => r == Err::<(JobId, Vec<u8>, u8), QueueError>(
                QueueError::AlreadyClaimed(job_id),
            ),
            QueueResponse::Error { message } => r == Err::<(JobId, Vec<u8>, u8), QueueError>(
                QueueError::Connection(message),
            ),
            QueueResponse::Acked { .. } => r matches Err(QueueError::Connection(m)) && m@
                == "unexpected response"@,
        },
{
    match response {
        QueueResponse::Granted { job_id, payload, priority } => Ok((job_id, payload, priority)),
        QueueResponse::AlreadyClaimed { job_id } => Err(QueueError::AlreadyClaimed(job_id)),
        QueueResponse::Error { message } => Err(QueueError::Connection(message)),
        QueueResponse::Acked { .. } => Err(
            QueueError::Connection(String::from_str("unexpected response")),
        ),
    }
}

/// What a consumer does on a gossip signal.
#[derive(Debug)]
pub enum ConsumerAction {
    /// Claim the job directly from the co-located producer's store.
    ClaimLocal { job_id: JobId },
    /// Claim the job from a remote producer over a direct stream.
    ClaimRemote { job_id: JobId, producer: PeerId },
    /// Nothing to do.
    Ignore,
}

/// Decide what to do with a signal, for the consumer whose own identity is `me`:
/// an available job is claimed locally when this peer produced it and remotely
/// otherwise; claims announced by peers are only noted.
pub fn plan_for_signal(signal: &GossipSignal, me: PeerId) -> (action: ConsumerAction)
    ensures
        match *signal {
            GossipSignal::JobAvailable { job_id, producer, .. } => if producer == me {
                action == ConsumerAction::ClaimLocal { job_id }
            } else {
                action == ConsumerAction::ClaimRemote { job_id, producer }
            },
            GossipSignal::JobClaimed { .. } => action == ConsumerAction::Ignore,
        },
{
    match signal {
        GossipSignal::JobAvailable { job_id, producer, .. } => {
            if *producer == me {
                ConsumerAction::ClaimLocal { job_id: *job_id }
            } else {
                ConsumerAction::ClaimRemote { job_id: *job_id, producer: *producer }
            }
        },
        GossipSignal::JobClaimed { .. } => ConsumerAction::Ignore,
    }
}

/// The request that reports a job's processing back to its producer: an ack with
/// the handler's result, or a nack with the handler's reason.
pub fn completion_request(job_id: JobId, outcome: Result<Option<Vec<u8>>, String>) -> (request:
    QueueRequest)
    ensures
        match outcome {
            Ok(result) => request == QueueRequest::Ack { job_id, result },
            Err(reason) => request == QueueRequest::Nack { job_id, reason },
        },
{
    match outcome {
        Ok(result) => QueueRequest::Ack { job_id, result },
        Err(reason) => QueueRequest::Nack { job_id, reason },
    }
}

/// Settle a locally claimed job in the co-located producer's store: ack it with
/// the handler's result when the handler succeeded, nack it with the handler's
/// reason otherwise.
pub fn settle_local(store: &mut JobStore, job_id: JobId, outcome: Result<Option<Vec<u8>>, String>) -> (r:
    Result<(), QueueError>)
    requires
        old(store).wf(),
    ensures
        final(store).wf(),
        ({
            let jobs = old(store).jobs();
            let claimed = jobs.contains_key(job_id) && jobs[job_id].state is Claimed;
            &&& r is Ok <==> claimed
            &&& r is Err ==> final(store).jobs() == jobs && final(store).pending() == old(
                store,
            ).pending()
            &&& !jobs.contains_key(job_id) ==> r == Err::<(), QueueError>(
                QueueError::JobNotFound(job_id),
            )
            &&& outcome matches Ok(result) ==> (claimed ==> final(store).jobs() == jobs.insert(
                job_id,
                with_state(jobs[job_id], StateView::Completed { result: bytes_view(result) }),
            ) && final(store).pending() == old(store).pending())
            &&& claimed && outcome is Err ==> final(store).jobs() == jobs.insert(
                job_id,
                with_state(jobs[job_id], StateView::Pending),
            ) && final(store).pending() == old(store).pending().push(job_id)
        }),
{
    match outcome {
        Ok(result) => store.ack(job_id, result),
        Err(reason) => store.nack(job_id, reason),
    }
}

} // verus!
