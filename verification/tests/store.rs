use meshwork::error::QueueError;
use meshwork::store::{JobState, JobStore, PeerId};

fn peer(n: u128) -> PeerId {
    PeerId { hi: n, lo: n + 1 }
}

#[test]
fn new_store_is_empty() {
    let store = JobStore::new();
    assert_eq!(store.pending_count(), 0);
    assert!(store.get(1).is_none());
}

#[test]
fn enqueue_adds_pending_job() {
    let mut store = JobStore::new();
    let job = store.enqueue(vec![1, 2, 3], 5, peer(1));
    assert_eq!(job.payload, vec![1, 2, 3]);
    assert_eq!(job.priority, 5);
    assert_eq!(job.producer, peer(1));
    assert_eq!(job.state, JobState::Pending);
    assert_eq!(store.pending_count(), 1);
    let stored = store.get(job.id).unwrap();
    assert_eq!(stored.id, job.id);
    assert_eq!(stored.payload, vec![1, 2, 3]);
    assert_eq!(stored.state, JobState::Pending);
}

#[test]
fn job_ids_are_version_4_uuids() {
    let mut store = JobStore::new();
    let a = store.enqueue(vec![], 0, peer(1));
    let b = store.enqueue(vec![], 0, peer(1));
    assert_ne!(a.id, b.id);
    assert_eq!((a.id >> 76) & 0xf, 4);
    assert_eq!((a.id >> 62) & 0x3, 2);
    assert_eq!(store.pending_count(), 2);
}

#[test]
fn claim_is_exclusive() {
    let mut store = JobStore::new();
    let job = store.enqueue(vec![9], 1, peer(1));
    let claimed = store.try_claim(job.id, peer(2)).unwrap();
    assert_eq!(claimed.id, job.id);
    assert_eq!(claimed.payload, vec![9]);
    assert!(matches!(claimed.state, JobState::Claimed { consumer, .. } if consumer == peer(2)));
    assert_eq!(store.pending_count(), 0);
    let second = store.try_claim(job.id, peer(3));
    assert!(matches!(second, Err(QueueError::AlreadyClaimed(id)) if id == job.id));
    let stored = store.get(job.id).unwrap();
    assert!(matches!(stored.state, JobState::Claimed { consumer, .. } if consumer == peer(2)));
}

#[test]
fn claim_of_unknown_job_is_not_found() {
    let mut store = JobStore::new();
    let r = store.try_claim(42, peer(2));
    assert!(matches!(r, Err(QueueError::JobNotFound(42))));
}

#[test]
fn claim_records_the_claim_time() {
    let mut store = JobStore::new();
    let job = store.enqueue(vec![], 0, peer(1));
    let claimed = store.try_claim_at(job.id, peer(2), 1234).unwrap();
    assert!(matches!(claimed.state, JobState::Claimed { claimed_at: 1234, .. }));
}

#[test]
fn ack_completes_a_claimed_job() {
    let mut store = JobStore::new();
    let job = store.enqueue(vec![], 0, peer(1));
    store.try_claim(job.id, peer(2)).unwrap();
    assert!(store.ack(job.id, Some(vec![7, 8])).is_ok());
    assert_eq!(store.get(job.id).unwrap().state, JobState::Completed { result: Some(vec![7, 8]) });
    assert_eq!(store.completed_result(job.id), Some(Some(vec![7, 8])));
    assert_eq!(store.pending_count(), 0);
    // A completed job can be neither claimed nor settled again.
    assert!(matches!(store.try_claim(job.id, peer(3)), Err(QueueError::AlreadyClaimed(_))));
    assert!(matches!(store.ack(job.id, None), Err(QueueError::Connection(_))));
    assert!(matches!(store.nack(job.id, String::from("x")), Err(QueueError::Connection(_))));
}

#[test]
fn ack_of_pending_job_is_refused() {
    let mut store = JobStore::new();
    let job = store.enqueue(vec![], 0, peer(1));
    let r = store.ack(job.id, None);
    match r {
        Err(QueueError::Connection(m)) => {
            assert!(m.starts_with("job "));
            assert!(m.ends_with(" is not in Claimed state"));
            assert_eq!(m.len(), "job ".len() + 36 + " is not in Claimed state".len());
        }
        other => panic!("unexpected {:?}", other),
    }
    assert_eq!(store.get(job.id).unwrap().state, JobState::Pending);
    assert_eq!(store.pending_count(), 1);
}

#[test]
fn ack_and_nack_of_unknown_job() {
    let mut store = JobStore::new();
    assert!(matches!(store.ack(7, None), Err(QueueError::JobNotFound(7))));
    assert!(matches!(store.nack(7, String::from("r")), Err(QueueError::JobNotFound(7))));
}

#[test]
fn nack_hands_the_job_back() {
    let mut store = JobStore::new();
    let job = store.enqueue(vec![4], 2, peer(1));
    store.try_claim(job.id, peer(2)).unwrap();
    assert!(store.nack(job.id, String::from("boom")).is_ok());
    let stored = store.get(job.id).unwrap();
    assert_eq!(stored.state, JobState::Pending);
    assert_eq!(stored.payload, vec![4]);
    assert_eq!(store.pending_count(), 1);
    // It can be claimed again.
    assert!(store.try_claim(job.id, peer(3)).is_ok());
}

#[test]
fn reap_returns_stale_claims_only() {
    let mut store = JobStore::new();
    let a = store.enqueue(vec![1], 0, peer(1));
    let b = store.enqueue(vec![2], 0, peer(1));
    let c = store.enqueue(vec![3], 0, peer(1));
    store.try_claim_at(a.id, peer(2), 100).unwrap();
    store.try_claim_at(b.id, peer(2), 500).unwrap();
    assert_eq!(store.pending_count(), 1);
    // At time 700 with a timeout of 300, only the claim taken at 100 is stale.
    let reaped = store.reap_stale_at(300, 700);
    assert_eq!(reaped, vec![a.id]);
    assert_eq!(store.get(a.id).unwrap().state, JobState::Pending);
    assert!(matches!(store.get(b.id).unwrap().state, JobState::Claimed { .. }));
    assert_eq!(store.get(c.id).unwrap().state, JobState::Pending);
    assert_eq!(store.pending_count(), 2);
    // A reaped job can be claimed again.
    assert!(store.try_claim(a.id, peer(3)).is_ok());
}

#[test]
fn reap_needs_strictly_more_than_the_timeout() {
    let mut store = JobStore::new();
    let a = store.enqueue(vec![], 0, peer(1));
    store.try_claim_at(a.id, peer(2), 100).unwrap();
    assert!(store.reap_stale_at(300, 400).is_empty());
    assert!(store.reap_stale_at(300, 50).is_empty());
    assert_eq!(store.reap_stale_at(300, 401), vec![a.id]);
}

#[test]
fn reap_orders_by_identifier() {
    let mut store = JobStore::new();
    let mut ids = Vec::new();
    for _ in 0..5 {
        let j = store.enqueue(vec![], 0, peer(1));
        store.try_claim_at(j.id, peer(2), 0).unwrap();
        ids.push(j.id);
    }
    ids.sort();
    let reaped = store.reap_stale_at(10, 1000);
    assert_eq!(reaped, ids);
    assert_eq!(store.pending_count(), 5);
}

#[test]
fn reap_on_the_live_clock_leaves_fresh_claims() {
    let mut store = JobStore::new();
    let a = store.enqueue(vec![], 0, peer(1));
    store.try_claim(a.id, peer(2)).unwrap();
    assert!(store.reap_stale(u64::MAX).is_empty());
    assert!(matches!(store.get(a.id).unwrap().state, JobState::Claimed { .. }));
}

#[test]
fn pending_count_follows_fifo_lifecycle() {
    let mut store = JobStore::new();
    let a = store.enqueue(vec![], 0, peer(1));
    let b = store.enqueue(vec![], 0, peer(1));
    assert_eq!(store.pending_count(), 2);
    store.try_claim(b.id, peer(2)).unwrap();
    assert_eq!(store.pending_count(), 1);
    store.try_claim(a.id, peer(2)).unwrap();
    assert_eq!(store.pending_count(), 0);
    store.nack(b.id, String::from("again")).unwrap();
    assert_eq!(store.pending_count(), 1);
}

#[test]
fn queue_error_messages() {
    let id: u128 = 0x67e5_5044_10b1_426f_9247_bb68_0e5f_e0c8;
    assert_eq!(
        QueueError::JobNotFound(id).message(),
        "job not found: 67e55044-10b1-426f-9247-bb680e5fe0c8"
    );
    assert_eq!(
        QueueError::AlreadyClaimed(id).message(),
        "job already claimed: 67e55044-10b1-426f-9247-bb680e5fe0c8"
    );
    assert_eq!(QueueError::Serialization(String::from("bad")).message(), "serialization error: bad");
    assert_eq!(QueueError::Connection(String::from("lost")).message(), "connection error: lost");
    assert_eq!(QueueError::Io(String::from("eof")).message(), "io error: eof");
    assert_eq!(QueueError::Gossip(String::from("down")).message(), "gossip error: down");
    assert_eq!(QueueError::Timeout.message(), "timeout");
    assert_eq!(QueueError::Shutdown.message(), "shutdown");
}

#[test]
fn not_claimed_message_names_the_job() {
    let mut store = JobStore::new();
    let job = store.enqueue(vec![], 0, peer(1));
    let text = format!("job {} is not in Claimed state", hyphenated(job.id));
    match store.nack(job.id, String::from("r")) {
        Err(QueueError::Connection(m)) => assert_eq!(m, text),
        other => panic!("unexpected {:?}", other),
    }
}

fn hyphenated(id: u128) -> String {
    let h = format!("{:032x}", id);
    format!("{}-{}-{}-{}-{}", &h[0..8], &h[8..12], &h[12..16], &h[16..20], &h[20..32])
}

#[test]
fn completed_result_waits_for_the_ack() {
    let mut store = JobStore::new();
    let job = store.enqueue(vec![1], 0, peer(1));
    assert_eq!(store.completed_result(job.id), None);
    store.try_claim(job.id, peer(2)).unwrap();
    assert_eq!(store.completed_result(job.id), None);
    store.ack(job.id, None).unwrap();
    assert_eq!(store.completed_result(job.id), Some(None));
    assert_eq!(store.completed_result(99), None);
}
