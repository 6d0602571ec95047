//! Messages of the work-queue protocol, their length-prefixed framing, the
//! partition header of a plan job, and the well-known gossip topic.

use vstd::prelude::*;

use crate::error::{concat_str, decimal_text, u64_string, JobId, QueueError};
use crate::store::PeerId;

verus! {

broadcast use vstd::seq_lib::group_seq_properties;

/// Signals broadcast to every peer of the gossip topic.
#[derive(Clone, Copy, Debug)]
pub enum GossipSignal {
    /// A producer has a new job available for consumption.
    JobAvailable { job_id: JobId, producer: PeerId, priority: u8, timestamp_ms: u64 },
    /// A consumer has successfully claimed a job.
    JobClaimed { job_id: JobId, consumer: PeerId },
}

/// Requests sent by a consumer on a direct stream to the producer.
#[derive(Debug)]
pub enum QueueRequest {
    /// Claim a specific job.
    Claim { job_id: JobId },
    /// The job was processed successfully.
    Ack { job_id: JobId, result: Option<Vec<u8>> },
    /// Processing failed; the job should be re-enqueued.
    Nack { job_id: JobId, reason: String },
}

/// Responses sent by the producer on a direct stream.
#[derive(Debug)]
pub enum QueueResponse {
    /// The claim was granted; carries the payload.
    Granted { job_id: JobId, payload: Vec<u8>, priority: u8 },
    /// The job was already claimed by another consumer.
    AlreadyClaimed { job_id: JobId },
    /// The acknowledgement was accepted.
    Acked { job_id: JobId },
    /// An error occurred.
    Error { message: String },
}

// ---------------------------------------------------------------------------
// Length-prefixed framing
// ---------------------------------------------------------------------------

/// Largest message body a reader accepts (16 MiB).
pub const MAX_MESSAGE_SIZE: usize = 16777216;

/// The four big-endian bytes of a 32-bit value.
pub open spec fn be_bytes(n: u32) -> Seq<u8> {
    seq![(n >> 24u32) as u8, (n >> 16u32) as u8, (n >> 8u32) as u8, n as u8]
}

/// The 32-bit value of four big-endian bytes.
pub open spec fn be_value(b: Seq<u8>) -> u32 {
    ((b[0] as u32) << 24u32) | ((b[1] as u32) << 16u32) | ((b[2] as u32) << 8u32) | (b[3] as u32)
}

/// A frame: the body's length as a 4-byte big-endian prefix (the length taken
/// modulo 2^32), followed by the body.
pub open spec fn framed(body: Seq<u8>) -> Seq<u8> {
    be_bytes(body.len() as u32) + body
}

/// The message of the error for an oversized frame.
pub open spec fn too_large_text(len: nat) -> Seq<char> {
    "message too large: "@ + decimal_text(len) + " bytes (max 16777216)"@
}

/// What a reader makes of a length prefix: the body length, or an error when it
/// exceeds [`MAX_MESSAGE_SIZE`].
pub open spec fn prefix_outcome(header: Seq<u8>, r: Result<usize, QueueError>) -> bool {
    let len = be_value(header);
    if len <= MAX_MESSAGE_SIZE {
        r == Ok::<usize, QueueError>(len as usize)
    } else {
        r matches Err(QueueError::Connection(m)) && m@ == too_large_text(len as nat)
    }
}

/// Frame a serialized message for the wire.
pub fn frame_message(body: &[u8]) -> (frame: Vec<u8>)
    ensures
        frame@ == framed(body@),
{
    let n = body.len() as u32;
    let mut frame: Vec<u8> = Vec::new();
    frame.push((n >> 24u32) as u8);
    frame.push((n >> 16u32) as u8);
    frame.push((n >> 8u32) as u8);
    frame.push(n as u8);
    let mut i: usize = 0;
    while i < body.len()
        invariant
            i <= body@.len(),
            frame@ == be_bytes(n) + body@.take(i as int),
            n == body@.len() as u32,
        decreases body@.len() - i,
    {
        frame.push(body[i]);
        assert(body@.take(i + 1) =~= body@.take(i as int).push(body@[i as int]));
        assert(be_bytes(n) + body@.take(i + 1) =~= (be_bytes(n) + body@.take(i as int)).push(
            body@[i as int],
        ));
        i = i + 1;
    }
    assert(body@.take(body@.len() as int) =~= body@);
    frame
}

/// Read the length prefix of a frame.
pub fn read_length_prefix(header: &[u8]) -> (r: Result<usize, QueueError>)
    requires
        header@.len() == 4,
    ensures
        prefix_outcome(header@, r),
{
    let len = ((header[0] as u32) << 24u32) | ((header[1] as u32) << 16u32) | ((header[2] as u32)
        << 8u32) | (header[3] as u32);
    if len as usize > MAX_MESSAGE_SIZE {
        let digits = u64_string(len as u64);
        let head = concat_str("message too large: ", digits.as_str());
        let message = concat_str(head.as_str(), " bytes (max 16777216)");
        Err(QueueError::Connection(message))
    } else {
        Ok(len as usize)
    }
}

/// Four big-endian bytes give back the value they encode.
pub proof fn lemma_be_roundtrip(n: u32)
    ensures
        be_value(be_bytes(n)) == n,
{
    let b = be_bytes(n);
    let b0 = b[0];
    let b1 = b[1];
    let b2 = b[2];
    let b3 = b[3];
    assert(((b0 as u32) << 24u32) | ((b1 as u32) << 16u32) | ((b2 as u32) << 8u32) | (b3 as u32)
        == n) by (bit_vector)
        requires
            b0 == (n >> 24u32) as u8,
            b1 == (n >> 16u32) as u8,
            b2 == (n >> 8u32) as u8,
            b3 == n as u8,
    ;
}

/// Reading the prefix of a frame gives back the body's length whenever the body
/// fits the limit, and the body follows the prefix unchanged.
pub proof fn lemma_frame_roundtrip(body: Seq<u8>, r: Result<usize, QueueError>)
    requires
        body.len() <= MAX_MESSAGE_SIZE,
        prefix_outcome(framed(body).take(4), r),
    ensures
        r == Ok::<usize, QueueError>(body.len() as usize),
        framed(body).skip(4) == body,
{
    let n = body.len() as u32;
    lemma_be_roundtrip(n);
    assert(framed(body).take(4) =~= be_bytes(n));
    assert(framed(body).skip(4) =~= body);
}

// ---------------------------------------------------------------------------
// Partition header of a plan job
// ---------------------------------------------------------------------------

/// The four little-endian bytes of a 32-bit value.
pub open spec fn le_bytes(n: u32) -> Seq<u8> {
    seq![n as u8, (n >> 8u32) as u8, (n >> 16u32) as u8, (n >> 24u32) as u8]
}

/// The 32-bit value of four little-endian bytes.
pub open spec fn le_value(b: Seq<u8>) -> u32 {
    (b[0] as u32) | ((b[1] as u32) << 8u32) | ((b[2] as u32) << 16u32) | ((b[3] as u32) << 24u32)
}

/// Job payload of a plan partition: the partition number (modulo 2^32) as
/// four little-endian bytes, followed by the serialized plan.
pub open spec fn plan_payload(partition: nat, plan: Seq<u8>) -> Seq<u8> {
    le_bytes(partition as u32) + plan
}

/// Message of the error for a payload without a partition header.
pub open spec fn short_payload_text() -> Seq<char> {
    "payload too short: missing partition header"@
}

/// Build the job payload for a plan partition.
pub fn encode_plan_payload(partition: usize, plan: &[u8]) -> (payload: Vec<u8>)
    ensures
        payload@ == plan_payload(partition as nat, plan@),
{
    let p = partition as u32;
    let mut payload: Vec<u8> = Vec::new();
    payload.push(p as u8);
    payload.push((p >> 8u32) as u8);
    payload.push((p >> 16u32) as u8);
    payload.push((p >> 24u32) as u8);
    let mut i: usize = 0;
    while i < plan.len()
        invariant
            i <= plan@.len(),
            payload@ == le_bytes(p) + plan@.take(i as int),
            p == partition as u32,
        decreases plan@.len() - i,
    {
        payload.push(plan[i]);
        assert(plan@.take(i + 1) =~= plan@.take(i as int).push(plan@[i as int]));
        assert(le_bytes(p) + plan@.take(i + 1) =~= (le_bytes(p) + plan@.take(i as int)).push(
            plan@[i as int],
        ));
        i = i + 1;
    }
    assert(plan@.take(plan@.len() as int) =~= plan@);
    payload
}

/// Split a plan job payload into its partition number and the serialized plan.
pub fn decode_plan_payload(payload: &[u8]) -> (r: Result<(usize, Vec<u8>), String>)
    ensures
        payload@.len() < 4 ==> (r matches Err(m) && m@ == short_payload_text()),
        payload@.len() >= 4 ==> (r matches Ok((partition, plan)) && partition == le_value(
            payload@,
        ) && plan@ == payload@.skip(4)),
{
    if payload.len() < 4 {
        return Err(String::from_str("payload too short: missing partition header"));
    }
    let partition = (payload[0] as u32) | ((payload[1] as u32) << 8u32) | ((payload[2] as u32)
        << 16u32) | ((payload[3] as u32) << 24u32);
    let mut plan: Vec<u8> = Vec::new();
    let mut i: usize = 4;
    while i < payload.len()
        invariant
            4 <= i <= payload@.len(),
            plan@ == payload@.subrange(4, i as int),
        decreases payload@.len() - i,
    {
        plan.push(payload[i]);
        assert(payload@.subrange(4, i + 1) =~= payload@.subrange(4, i as int).push(
            payload@[i as int],
        ));
        i = i + 1;
    }
    assert(plan@ =~= payload@.skip(4));
    Ok((partition as usize, plan))
}

/// Decoding a payload built for a partition gives back the partition number
/// (modulo 2^32) and the plan bytes.
pub proof fn lemma_plan_payload_roundtrip(partition: nat, plan: Seq<u8>)
    ensures
        le_value(plan_payload(partition, plan)) == partition as u32,
        plan_payload(partition, plan).skip(4) == plan,
{
    let n = partition as u32;
    let b = plan_payload(partition, plan);
    assert(b[0] == n as u8 && b[1] == (n >> 8u32) as u8 && b[2] == (n >> 16u32) as u8 && b[3] == (n
        >> 24u32) as u8);
    let b0 = b[0];
    let b1 = b[1];
    let b2 = b[2];
    let b3 = b[3];
    assert((b0 as u32) | ((b1 as u32) << 8u32) | ((b2 as u32) << 16u32) | ((b3 as u32) << 24u32)
        == n) by (bit_vector)
        requires
            b0 == n as u8,
            b1 == (n >> 8u32) as u8,
            b2 == (n >> 16u32) as u8,
            b3 == (n >> 24u32) as u8,
    ;
    assert(b.skip(4) =~= plan);
}

// ---------------------------------------------------------------------------
// The well-known gossip topic
// ---------------------------------------------------------------------------

/// The ASCII bytes of the topic name `df-p2p/work-queue/0`.
pub open spec fn work_queue_topic_name() -> Seq<u8> {
    seq![
        100u8, 102u8, 45u8, 112u8, 50u8, 112u8, 47u8, 119u8, 111u8, 114u8,
        107u8, 45u8, 113u8, 117u8, 101u8, 117u8, 101u8, 47u8, 48u8,
    ]
}

/// The 32-byte identifier of the gossip topic that every peer joins: the topic
/// name, padded with zero bytes.
pub fn work_queue_topic() -> (topic: Vec<u8>)
    ensures
        topic@.len() == 32,
        topic@.take(19) == work_queue_topic_name(),
        forall|i: int| 19 <= i < 32 ==> topic@[i] == 0,
{
    let name: [u8; 19] = [
        100u8, 102u8, 45u8, 112u8, 50u8, 112u8, 47u8, 119u8, 111u8, 114u8,
        107u8, 45u8, 113u8, 117u8, 101u8, 117u8, 101u8, 47u8, 48u8,
    ];
    assert(name@ =~= work_queue_topic_name());
    let mut topic: Vec<u8> = Vec::new();
    let mut i: usize = 0;
    while i < 32
        invariant
            i <= 32,
            name@ == work_queue_topic_name(),
            topic@.len() == i,
            forall|j: int| 0 <= j < i && j < 19 ==> topic@[j] == name@[j],
            forall|j: int| 19 <= j < i ==> topic@[j] == 0,
        decreases 32 - i,
    {
        if i < 19 {
            topic.push(name[i]);
        } else {
            topic.push(0u8);
        }
        i = i + 1;
    }
    assert(topic@.take(19) =~= work_queue_topic_name());
    topic
}

} // verus!
