use meshwork::error::QueueError;
use meshwork::protocol::{
    decode_plan_payload, encode_plan_payload, frame_message, read_length_prefix,
    work_queue_topic, MAX_MESSAGE_SIZE,
};

#[test]
fn frame_has_big_endian_length_prefix() {
    assert_eq!(frame_message(b"abc"), vec![0, 0, 0, 3, b'a', b'b', b'c']);
    assert_eq!(frame_message(b""), vec![0, 0, 0, 0]);
    let body = vec![7u8; 300];
    let frame = frame_message(&body);
    assert_eq!(&frame[..4], &[0, 0, 1, 44]);
    assert_eq!(&frame[4..], &body[..]);
}

#[test]
fn length_prefix_roundtrip() {
    let body = vec![1u8; 1000];
    let frame = frame_message(&body);
    assert_eq!(read_length_prefix(&frame[..4]).unwrap(), 1000);
}

#[test]
fn length_prefix_at_the_limit_is_accepted() {
    assert_eq!(read_length_prefix(&[1, 0, 0, 0]).unwrap(), MAX_MESSAGE_SIZE);
    assert_eq!(MAX_MESSAGE_SIZE, 16 * 1024 * 1024);
}

#[test]
fn oversized_length_prefix_is_refused() {
    match read_length_prefix(&[1, 0, 0, 1]) {
        Err(QueueError::Connection(m)) => {
            assert_eq!(m, "message too large: 16777217 bytes (max 16777216)")
        }
        other => panic!("unexpected {:?}", other),
    }
    match read_length_prefix(&[0xff, 0xff, 0xff, 0xff]) {
        Err(QueueError::Connection(m)) => {
            assert_eq!(m, "message too large: 4294967295 bytes (max 16777216)")
        }
        other => panic!("unexpected {:?}", other),
    }
}

#[test]
fn plan_payload_has_little_endian_partition() {
    let payload = encode_plan_payload(3, b"plan");
    assert_eq!(payload, vec![3, 0, 0, 0, b'p', b'l', b'a', b'n']);
    let payload = encode_plan_payload(0x01020304, b"");
    assert_eq!(payload, vec![4, 3, 2, 1]);
}

#[test]
fn plan_payload_roundtrip() {
    let plan: Vec<u8> = (0..=255u8).collect();
    let payload = encode_plan_payload(17, &plan);
    let (partition, decoded) = decode_plan_payload(&payload).unwrap();
    assert_eq!(partition, 17);
    assert_eq!(decoded, plan);
}

#[test]
fn short_plan_payload_is_refused() {
    assert_eq!(
        decode_plan_payload(&[1, 2, 3]),
        Err(String::from("payload too short: missing partition header"))
    );
    assert_eq!(
        decode_plan_payload(&[]),
        Err(String::from("payload too short: missing partition header"))
    );
    assert_eq!(decode_plan_payload(&[5, 0, 0, 0]), Ok((5, vec![])));
}

#[test]
fn topic_is_padded_name() {
    let topic = work_queue_topic();
    assert_eq!(topic.len(), 32);
    assert_eq!(&topic[..19], b"df-p2p/work-queue/0");
    assert!(topic[19..].iter().all(|b| *b == 0));
}
