use meshwork::partition::{
    bucket_hash_long, days_since_epoch, make_ts, murmur3_x86_32, partition_values, truncate_str,
    RowData, CITY_TRUNCATE_WIDTH, MICROS_PER_DAY, USER_ID_BUCKETS,
};

#[test]
fn murmur3_empty_input() {
    assert_eq!(murmur3_x86_32(b"", 0), 0);
    assert_eq!(murmur3_x86_32(b"", 1), 1364076727);
}

#[test]
fn murmur3_known_vectors() {
    assert_eq!(murmur3_x86_32(b"hello", 0), 613153351);
    assert_eq!(
        murmur3_x86_32(b"The quick brown fox jumps over the lazy dog", 0),
        776992547
    );
}

#[test]
fn murmur3_every_tail_length() {
    assert_eq!(murmur3_x86_32(b"ab", 0), 2613040991);
    assert_eq!(murmur3_x86_32(b"abc", 0), 3017643002);
    assert_eq!(murmur3_x86_32(b"abcd", 0), 1139631978);
    assert_eq!(murmur3_x86_32(b"abcde", 0), 3902511862);
}

#[test]
fn murmur3_iceberg_long_example() {
    // The Iceberg spec hashes the long 34 to 2017239379.
    assert_eq!(murmur3_x86_32(&34i64.to_le_bytes(), 0), 2017239379);
}

#[test]
fn bucket_of_sample_users() {
    assert_eq!(bucket_hash_long(100, 4), 0);
    assert_eq!(bucket_hash_long(200, 4), 3);
    assert_eq!(bucket_hash_long(300, 4), 2);
    assert_eq!(bucket_hash_long(400, 4), 3);
    assert_eq!(bucket_hash_long(34, 4), 3);
    assert_eq!(bucket_hash_long(-1, 4), 0);
}

#[test]
fn bucket_is_always_in_range() {
    for v in [-1000i64, -7, 0, 1, 99, 123456789, i64::MIN, i64::MAX] {
        for n in [1u32, 2, 3, 4, 7, 16, 1000] {
            let b = bucket_hash_long(v, n);
            assert!(b >= 0 && (b as u32) < n);
        }
    }
    assert_eq!(bucket_hash_long(12345, 1), 0);
}

#[test]
fn truncate_keeps_a_prefix() {
    assert_eq!(truncate_str("Berlin", 3), "Ber");
    assert_eq!(truncate_str("NY", 3), "NY");
    assert_eq!(truncate_str("Rom", 3), "Rom");
    assert_eq!(truncate_str("", 3), "");
    assert_eq!(truncate_str("Paris", 0), "");
}

#[test]
fn truncate_counts_characters_not_bytes() {
    assert_eq!(truncate_str("Zürich", 3), "Zür");
    assert_eq!(truncate_str("東京都庁", 2), "東京");
}

#[test]
fn make_ts_sample_events() {
    assert_eq!(make_ts(2024, 1, 15, 10, 0, 0), 1705312800000000);
    assert_eq!(make_ts(2024, 3, 10, 20, 0, 0), 1710100800000000);
    assert_eq!(make_ts(1970, 1, 1, 0, 0, 0), 0);
    assert_eq!(make_ts(1969, 12, 31, 23, 0, 0), -3600000000);
}

#[test]
fn make_ts_leap_day() {
    assert_eq!(make_ts(2024, 2, 29, 0, 0, 0), 1709164800000000);
}

#[test]
fn days_since_epoch_of_samples() {
    assert_eq!(days_since_epoch(1705312800000000), 19737);
    assert_eq!(days_since_epoch(1710100800000000), 19792);
    assert_eq!(days_since_epoch(0), 0);
    assert_eq!(days_since_epoch(MICROS_PER_DAY - 1), 0);
    assert_eq!(days_since_epoch(MICROS_PER_DAY), 1);
}

#[test]
fn days_since_epoch_rounds_down_before_the_epoch() {
    assert_eq!(days_since_epoch(-1), -1);
    assert_eq!(days_since_epoch(-3600000000), -1);
    assert_eq!(days_since_epoch(-MICROS_PER_DAY), -1);
    assert_eq!(days_since_epoch(-MICROS_PER_DAY - 1), -2);
    assert_eq!(days_since_epoch(make_ts(1969, 12, 31, 23, 0, 0)), -1);
    assert_eq!(days_since_epoch(make_ts(1900, 1, 1, 12, 0, 0)), -25567);
    assert_eq!(days_since_epoch(i64::MIN), -106751992);
    assert_eq!(days_since_epoch(i64::MAX), 106751991);
}

#[test]
fn day_of_a_made_timestamp() {
    let ts = make_ts(2024, 1, 15, 23, 59, 59);
    assert_eq!(days_since_epoch(ts), 19737);
}

#[test]
fn partition_values_of_a_row() {
    let row = RowData {
        event_id: 7,
        event_ts: make_ts(2024, 1, 15, 10, 0, 0),
        user_id: 200,
        city: String::from("Berlin"),
        payload: Some(String::from("click")),
    };
    let p = partition_values(&row);
    assert_eq!(p.event_id, 7);
    assert_eq!(p.event_day, 19737);
    assert_eq!(p.user_bucket, bucket_hash_long(200, USER_ID_BUCKETS));
    assert_eq!(p.user_bucket, 3);
    assert_eq!(p.city_prefix, "Ber");
    assert_eq!(CITY_TRUNCATE_WIDTH, 3);
}

#[test]
fn make_ts_at_the_calendar_limits() {
    assert_eq!(make_ts(262142, 12, 31, 23, 59, 59), 8210266876799000000);
    assert_eq!(make_ts(-262143, 1, 1, 0, 0, 0), -8334601228800000000);
}

#[test]
fn make_ts_before_the_common_era() {
    assert_eq!(make_ts(0, 2, 29, 12, 0, 0), -62162078400000000);
    assert_eq!(make_ts(-1, 3, 1, 0, 0, 0), -62193657600000000);
    assert_eq!(make_ts(1600, 2, 29, 0, 0, 0), -11670998400000000);
}
