use meshwork::error::QueueError;
use meshwork::node::{
    answer_followup, answer_request, claim_outcome, completion_request, plan_for_signal,
    settle_local, ConsumerAction,
};
use meshwork::protocol::{GossipSignal, QueueRequest, QueueResponse};
use meshwork::store::{JobState, JobStore, PeerId};

fn peer(n: u128) -> PeerId {
    PeerId { hi: 0, lo: n }
}

#[test]
fn claim_request_is_granted_once() {
    let mut store = JobStore::new();
    let job = store.enqueue(vec![1, 2], 3, peer(1));
    let r = answer_request(&mut store, peer(2), QueueRequest::Claim { job_id: job.id });
    match r {
        Ok(QueueResponse::Granted { job_id, payload, priority }) => {
            assert_eq!(job_id, job.id);
            assert_eq!(payload, vec![1, 2]);
            assert_eq!(priority, 3);
        }
        other => panic!("unexpected {:?}", other),
    }
    let again = answer_request(&mut store, peer(3), QueueRequest::Claim { job_id: job.id });
    assert!(matches!(again, Ok(QueueResponse::AlreadyClaimed { job_id }) if job_id == job.id));
}

#[test]
fn claim_of_unknown_job_answers_with_error_message() {
    let mut store = JobStore::new();
    let r = answer_request(&mut store, peer(2), QueueRequest::Claim { job_id: 0 });
    match r {
        Ok(QueueResponse::Error { message }) => {
            assert_eq!(message, "job not found: 00000000-0000-0000-0000-000000000000")
        }
        other => panic!("unexpected {:?}", other),
    }
}

#[test]
fn ack_request_is_acked() {
    let mut store = JobStore::new();
    let job = store.enqueue(vec![], 0, peer(1));
    store.try_claim(job.id, peer(2)).unwrap();
    let r = answer_request(
        &mut store,
        peer(2),
        QueueRequest::Ack { job_id: job.id, result: Some(vec![5, 6]) },
    );
    assert!(matches!(r, Ok(QueueResponse::Acked { job_id }) if job_id == job.id));
    assert_eq!(store.get(job.id).unwrap().state, JobState::Completed { result: Some(vec![5, 6]) });
    assert_eq!(store.completed_result(job.id), Some(Some(vec![5, 6])));
}

#[test]
fn nack_request_echoes_reason() {
    let mut store = JobStore::new();
    let job = store.enqueue(vec![], 0, peer(1));
    store.try_claim(job.id, peer(2)).unwrap();
    let r = answer_request(
        &mut store,
        peer(2),
        QueueRequest::Nack { job_id: job.id, reason: String::from("disk full") },
    );
    match r {
        Ok(QueueResponse::Error { message }) => assert_eq!(message, "job nacked: disk full"),
        other => panic!("unexpected {:?}", other),
    }
    assert_eq!(store.get(job.id).unwrap().state, JobState::Pending);
    assert_eq!(store.pending_count(), 1);
}

#[test]
fn refused_ack_returns_the_store_error() {
    let mut store = JobStore::new();
    let r = answer_request(&mut store, peer(2), QueueRequest::Ack { job_id: 5, result: None });
    assert!(matches!(r, Err(QueueError::JobNotFound(5))));
}

#[test]
fn followup_claim_gets_no_reply() {
    let mut store = JobStore::new();
    let job = store.enqueue(vec![], 0, peer(1));
    let r = answer_followup(&mut store, peer(2), QueueRequest::Claim { job_id: job.id });
    assert!(matches!(r, Ok(None)));
    assert_eq!(store.get(job.id).unwrap().state, JobState::Pending);
}

#[test]
fn followup_ack_is_answered() {
    let mut store = JobStore::new();
    let job = store.enqueue(vec![], 0, peer(1));
    store.try_claim(job.id, peer(2)).unwrap();
    let r = answer_followup(
        &mut store,
        peer(2),
        QueueRequest::Ack { job_id: job.id, result: Some(vec![1]) },
    );
    assert!(matches!(r, Ok(Some(QueueResponse::Acked { .. }))));
}

#[test]
fn claim_outcomes() {
    let granted = claim_outcome(QueueResponse::Granted { job_id: 9, payload: vec![4], priority: 2 });
    assert!(matches!(granted, Ok((9, ref p, 2)) if *p == vec![4u8]));
    assert!(matches!(
        claim_outcome(QueueResponse::AlreadyClaimed { job_id: 9 }),
        Err(QueueError::AlreadyClaimed(9))
    ));
    match claim_outcome(QueueResponse::Error { message: String::from("nope") }) {
        Err(QueueError::Connection(m)) => assert_eq!(m, "nope"),
        other => panic!("unexpected {:?}", other),
    }
    match claim_outcome(QueueResponse::Acked { job_id: 9 }) {
        Err(QueueError::Connection(m)) => assert_eq!(m, "unexpected response"),
        other => panic!("unexpected {:?}", other),
    }
}

#[test]
fn signals_are_planned() {
    let me = peer(1);
    let local = GossipSignal::JobAvailable { job_id: 4, producer: me, priority: 0, timestamp_ms: 0 };
    assert!(matches!(plan_for_signal(&local, me), ConsumerAction::ClaimLocal { job_id: 4 }));
    let remote =
        GossipSignal::JobAvailable { job_id: 5, producer: peer(2), priority: 1, timestamp_ms: 7 };
    assert!(matches!(
        plan_for_signal(&remote, me),
        ConsumerAction::ClaimRemote { job_id: 5, producer } if producer == peer(2)
    ));
    let claimed = GossipSignal::JobClaimed { job_id: 5, consumer: peer(3) };
    assert!(matches!(plan_for_signal(&claimed, me), ConsumerAction::Ignore));
}

#[test]
fn completion_requests() {
    assert!(matches!(
        completion_request(3, Ok(Some(vec![1]))),
        QueueRequest::Ack { job_id: 3, result: Some(ref r) } if *r == vec![1u8]
    ));
    assert!(matches!(
        completion_request(3, Err(String::from("bad"))),
        QueueRequest::Nack { job_id: 3, ref reason } if reason == "bad"
    ));
}

#[test]
fn settle_local_acks_or_nacks() {
    let mut store = JobStore::new();
    let a = store.enqueue(vec![], 0, peer(1));
    let b = store.enqueue(vec![], 0, peer(1));
    store.try_claim(a.id, peer(1)).unwrap();
    store.try_claim(b.id, peer(1)).unwrap();
    assert!(settle_local(&mut store, a.id, Ok(Some(vec![3]))).is_ok());
    assert!(settle_local(&mut store, b.id, Err(String::from("x"))).is_ok());
    assert_eq!(store.get(a.id).unwrap().state, JobState::Completed { result: Some(vec![3]) });
    assert_eq!(store.get(b.id).unwrap().state, JobState::Pending);
    assert!(matches!(settle_local(&mut store, 99, Ok(None)), Err(QueueError::JobNotFound(99))));
}
