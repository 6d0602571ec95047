//! Iceberg hidden-partition transforms: `identity`, `day`, `bucket[N]` and
//! `truncate[W]`, together with the 32-bit Murmur3 hash that `bucket` uses.

use vstd::prelude::*;
use vstd::wrapping::u32_specs::{wrapping_add, wrapping_mul};

verus! {

/// First Murmur3 mixing constant.
pub const MURMUR_C1: u32 = 0xcc9e_2d51;

/// Second Murmur3 mixing constant.
pub const MURMUR_C2: u32 = 0x1b87_3593;

// ---------------------------------------------------------------------------
// Murmur3 x86 32-bit, as a mathematical definition over byte sequences
// ---------------------------------------------------------------------------

/// Rotate a 32-bit word left by `r` bits (`0 < r < 32`).
pub open spec fn rotl32(x: u32, r: u32) -> u32 {
    (x << r) | (x >> ((32 - r) as u32))
}

/// Scrambling applied to every 32-bit key word before it enters the state.
pub open spec fn scramble(k: u32) -> u32 {
    wrapping_mul(rotl32(wrapping_mul(k, MURMUR_C1), 15), MURMUR_C2)
}

/// One round of the body: fold a scrambled block into the running state.
pub open spec fn mix_block(h: u32, k: u32) -> u32 {
    wrapping_add(wrapping_mul(rotl32(h ^ scramble(k), 13), 5), 0xe654_6b64)
}

/// The little-endian 32-bit word whose first byte is `data[i]`.
pub open spec fn le_word(data: Seq<u8>, i: int) -> u32 {
    (data[i] as u32) | ((data[i + 1] as u32) << 8u32) | ((data[i + 2] as u32) << 16u32) | ((
    data[i + 3] as u32) << 24u32)
}

/// State after folding in the first `n` complete 4-byte blocks of `data`.
pub open spec fn murmur_body(data: Seq<u8>, seed: u32, n: nat) -> u32
    decreases n,
{
    if n == 0 {
        seed
    } else {
        mix_block(murmur_body(data, seed, (n - 1) as nat), le_word(data, 4 * (n - 1)))
    }
}

/// The key word built from the 1 to 3 trailing bytes that start at `start`.
pub open spec fn tail_word(data: Seq<u8>, start: int) -> u32 {
    let rem = data.len() - start;
    if rem == 3 {
        (((data[start + 2] as u32) << 16u32) ^ ((data[start + 1] as u32) << 8u32)) ^ (
        data[start] as u32)
    } else if rem == 2 {
        ((data[start + 1] as u32) << 8u32) ^ (data[start] as u32)
    } else {
        data[start] as u32
    }
}

/// Final avalanche of the Murmur3 state.
pub open spec fn fmix32(h: u32) -> u32 {
    let h1 = h ^ (h >> 16u32);
    let h2 = wrapping_mul(h1, 0x85eb_ca6b);
    let h3 = h2 ^ (h2 >> 13u32);
    let h4 = wrapping_mul(h3, 0xc2b2_ae35);
    h4 ^ (h4 >> 16u32)
}

/// Murmur3 x86 32-bit hash of `data` with the given seed.
pub open spec fn murmur3_32(data: Seq<u8>, seed: u32) -> u32 {
    let n_blocks = data.len() / 4;
    let body = murmur_body(data, seed, n_blocks);
    let with_tail = if data.len() % 4 == 0 {
        body
    } else {
        body ^ scramble(tail_word(data, (4 * n_blocks) as int))
    };
    fmix32(with_tail ^ (data.len() as u32))
}

fn rotl(x: u32, r: u32) -> (res: u32)
    requires
        0 < r < 32,
    ensures
        res == rotl32(x, r),
{
    (x << r) | (x >> (32 - r))
}

fn scramble_word(k: u32) -> (res: u32)
    ensures
        res == scramble(k),
{
    let k1 = k.wrapping_mul(MURMUR_C1);
    let k1 = rotl(k1, 15);
    k1.wrapping_mul(MURMUR_C2)
}

/// Murmur3 x86 32-bit hash (the variant that Iceberg uses for bucketing).
pub fn murmur3_x86_32(data: &[u8], seed: u32) -> (hash: u32)
    ensures
        hash == murmur3_32(data@, seed),
{
    let len = data.len();
    let n_blocks = len / 4;
    let mut h1 = seed;
    let mut i: usize = 0;
    while i < n_blocks
        invariant
            len == data@.len(),
            n_blocks == len / 4,
            i <= n_blocks,
            h1 == murmur_body(data@, seed, i as nat),
        decreases n_blocks - i,
    {
        assert(4 * i + 3 < len) by (nonlinear_arith)
            requires
                i < n_blocks,
                n_blocks == len / 4,
        ;
        let offset = i * 4;
        let k = (data[offset] as u32) | ((data[offset + 1] as u32) << 8u32) | ((data[offset
            + 2] as u32) << 16u32) | ((data[offset + 3] as u32) << 24u32);
        let k1 = scramble_word(k);
        h1 = h1 ^ k1;
        h1 = rotl(h1, 13);
        h1 = h1.wrapping_mul(5).wrapping_add(0xe654_6b64);
        i = i + 1;
    }
    let start = n_blocks * 4;
    let rem = len - start;
    assert(rem == len % 4);
    if rem == 3 {
        let k1: u32 = (((data[start + 2] as u32) << 16u32) ^ ((data[start + 1] as u32) << 8u32))
            ^ (data[start] as u32);
        h1 = h1 ^ scramble_word(k1);
    } else if rem == 2 {
        let k1: u32 = ((data[start + 1] as u32) << 8u32) ^ (data[start] as u32);
        h1 = h1 ^ scramble_word(k1);
    } else if rem == 1 {
        let k1: u32 = data[start] as u32;
        h1 = h1 ^ scramble_word(k1);
    }
    h1 = h1 ^ (len as u32);
    h1 = h1 ^ (h1 >> 16u32);
    h1 = h1.wrapping_mul(0x85eb_ca6b);
    h1 = h1 ^ (h1 >> 13u32);
    h1 = h1.wrapping_mul(0xc2b2_ae35);
    h1 = h1 ^ (h1 >> 16u32);
    h1
}


// ---------------------------------------------------------------------------
// bucket[N]
// ---------------------------------------------------------------------------

/// The eight little-endian bytes of a 64-bit signed integer.
pub open spec fn i64_le_bytes(value: i64) -> Seq<u8> {
    let v = value as u64;
    seq![
        v as u8,
        (v >> 8u64) as u8,
        (v >> 16u64) as u8,
        (v >> 24u64) as u8,
        (v >> 32u64) as u8,
        (v >> 40u64) as u8,
        (v >> 48u64) as u8,
        (v >> 56u64) as u8,
    ]
}

/// Iceberg's `bucket[N]` transform of a long: the Murmur3 hash (seed 0) of its
/// little-endian bytes, with the sign bit cleared, modulo `N`.
pub open spec fn bucket_of_long(value: i64, num_buckets: u32) -> int {
    ((murmur3_32(i64_le_bytes(value), 0) & 0x7fff_ffffu32) % num_buckets) as int
}

fn i64_to_le_bytes(value: i64) -> (bytes: Vec<u8>)
    ensures
        bytes@ == i64_le_bytes(value),
{
    let v = value as u64;
    let bytes = vec![
        v as u8,
        (v >> 8u64) as u8,
        (v >> 16u64) as u8,
        (v >> 24u64) as u8,
        (v >> 32u64) as u8,
        (v >> 40u64) as u8,
        (v >> 48u64) as u8,
        (v >> 56u64) as u8,
    ];
    assert(bytes@ =~= i64_le_bytes(value));
    bytes
}

/// Compute the `bucket[num_buckets]` partition value of a long.
pub fn bucket_hash_long(value: i64, num_buckets: u32) -> (bucket: i32)
    requires
        num_buckets > 0,
    ensures
        bucket == bucket_of_long(value, num_buckets),
        0 <= bucket < num_buckets,
{
    let bytes = i64_to_le_bytes(value);
    let hash = murmur3_x86_32(bytes.as_slice(), 0);
    let masked = hash & 0x7fff_ffffu32;
    assert(masked <= 0x7fff_ffffu32) by (bit_vector)
        requires
            masked == hash & 0x7fff_ffffu32,
    ;
    let b = masked % num_buckets;
    assert(b <= masked && b < num_buckets) by (nonlinear_arith)
        requires
            b == masked % num_buckets,
            num_buckets > 0,
    ;
    b as i32
}

/// Every bucket value lies in `[0, num_buckets)`.
pub proof fn lemma_bucket_in_range(value: i64, num_buckets: u32)
    requires
        num_buckets > 0,
    ensures
        0 <= bucket_of_long(value, num_buckets) < num_buckets,
{
}

/// The bucket of a long is its Murmur3 hash with the sign bit cleared (the hash
/// taken modulo 2^31), modulo the number of buckets; the hash is of the value's
/// eight bytes, least significant first.
pub proof fn lemma_bucket_of_long_is_hash_mod(value: i64, num_buckets: u32)
    requires
        num_buckets > 0,
    ensures
        bucket_of_long(value, num_buckets) == (murmur3_32(i64_le_bytes(value), 0) as int
            % 0x8000_0000) % (num_buckets as int),
        ({
            let b = i64_le_bytes(value);
            &&& b.len() == 8
            &&& (value as u64) as int == b[0] + 256 * b[1] + 65536 * b[2] + 16777216 * b[3]
                + 4294967296 * b[4] + 1099511627776 * b[5] + 281474976710656 * b[6]
                + 72057594037927936 * b[7]
        }),
{
    let h = murmur3_32(i64_le_bytes(value), 0);
    assert(h & 0x7fff_ffffu32 == h % 0x8000_0000) by (bit_vector);
    let v = value as u64;
    assert(v == (v as u8) as u64 + 256 * ((v >> 8u64) as u8) as u64 + 65536 * ((v >> 16u64) as u8)
        as u64 + 16777216 * ((v >> 24u64) as u8) as u64 + 4294967296 * ((v >> 32u64) as u8) as u64
        + 1099511627776 * ((v >> 40u64) as u8) as u64 + 281474976710656 * ((v >> 48u64) as u8)
        as u64 + 72057594037927936 * ((v >> 56u64) as u8) as u64) by (bit_vector);
}

// ---------------------------------------------------------------------------
// truncate[W]
// ---------------------------------------------------------------------------

/// The first `width` characters of `s` (all of `s` if it is shorter).
pub open spec fn truncated(s: Seq<char>, width: int) -> Seq<char> {
    if width < s.len() {
        s.take(width)
    } else {
        s
    }
}

/// Append one character to a `String` (`String::push`).
#[verifier::external_body]
fn push_char(s: &mut String, c: char)
    ensures
        final(s)@ == old(s)@.push(c),
{
    s.push(c);
}

/// Truncate a string to `width` characters (Iceberg's `truncate[W]` for strings).
pub fn truncate_str(s: &str, width: usize) -> (out: String)
    ensures
        out@ == truncated(s@, width as int),
{
    let mut out = String::new();
    let mut taken: usize = 0;
    for c in it: s.chars()
        invariant_except_break
            taken == it.index(),
            out@ == s@.take(it.index() as int),
        invariant
            it.seq() == s@,
            taken <= width,
        ensures
            out@ == truncated(s@, width as int),
    {
        if taken == width {
            assert(s@.take(width as int) == truncated(s@, width as int));
            assert(out@ == s@.take(width as int));
            break;
        }
        push_char(&mut out, c);
        taken = taken + 1;
        assert(s@.take(taken as int) =~= s@.take((taken - 1) as int).push(c));
    }
    out
}

/// `truncate[W]` keeps a prefix of the input, of length `min(W, len)`.
pub proof fn lemma_truncated_is_prefix(s: Seq<char>, width: nat)
    ensures
        truncated(s, width as int).len() == if width < s.len() {
            width as int
        } else {
            s.len() as int
        },
        truncated(s, width as int).is_prefix_of(s),
{
}

// ---------------------------------------------------------------------------
// day
// ---------------------------------------------------------------------------

/// Microseconds in one day.
pub const MICROS_PER_DAY: i64 = 86_400_000_000;

/// Compute the `day` partition value of a microsecond timestamp (Iceberg's `Day`
/// transform): the whole days since 1970-01-01, rounded down, so that instants
/// before the epoch fall on negative days.
pub fn days_since_epoch(ts_micros: i64) -> (days: i32)
    ensures
        days as int == (ts_micros as int) / (MICROS_PER_DAY as int),
{
    let q = ts_micros / MICROS_PER_DAY;
    let r = ts_micros % MICROS_PER_DAY;
    let days = if r < 0 {
        q - 1
    } else {
        q
    };
    let ghost rest: int = if r < 0 {
        r + 86_400_000_000
    } else {
        r as int
    };
    assert(days * 86_400_000_000 + rest == ts_micros);
    assert(days as int == (ts_micros as int) / 86_400_000_000) by (nonlinear_arith)
        requires
            days * 86_400_000_000 + rest == ts_micros,
            0 <= rest < 86_400_000_000,
    ;
    assert(-106_751_992 <= days <= 106_751_992) by (nonlinear_arith)
        requires
            days as int == (ts_micros as int) / 86_400_000_000,
    ;
    days as i32
}

// ---------------------------------------------------------------------------
// Calendar timestamps
// ---------------------------------------------------------------------------

/// Leap years of the proleptic Gregorian calendar.
pub open spec fn is_leap_year(year: int) -> bool {
    year % 4 == 0 && (year % 100 != 0 || year % 400 == 0)
}

/// Number of days in `month` (1-based) of `year`.
pub open spec fn days_in_month(year: int, month: int) -> int {
    if month == 2 {
        if is_leap_year(year) {
            29
        } else {
            28
        }
    } else if month == 4 || month == 6 || month == 9 || month == 11 {
        30
    } else {
        31
    }
}

/// A calendar date inside the range that chrono's `NaiveDate` represents.
pub open spec fn is_valid_date(year: int, month: int, day: int) -> bool {
    &&& -262_143 <= year <= 262_142
    &&& 1 <= month <= 12
    &&& 1 <= day <= days_in_month(year, month)
}

/// A wall-clock time of day without leap seconds.
pub open spec fn is_valid_time(hour: int, min: int, sec: int) -> bool {
    0 <= hour < 24 && 0 <= min < 60 && 0 <= sec < 60
}

/// Leap years among years 1 to `year` (year 0 and before counted negatively),
/// by the Gregorian rule.
pub open spec fn leap_years_through(year: int) -> int {
    year / 4 - year / 100 + year / 400
}

/// Days from 1970-01-01 to January 1 of `year`.
pub open spec fn days_to_year(year: int) -> int {
    365 * (year - 1970) + leap_years_through(year - 1) - leap_years_through(1969)
}

/// Days of `year` before the first of `month`.
pub open spec fn days_before_month(year: int, month: int) -> int
    decreases month,
{
    if month <= 1 {
        0
    } else {
        days_before_month(year, month - 1) + days_in_month(year, month - 1)
    }
}

/// The number of days from 1970-01-01 to the given (proleptic Gregorian)
/// calendar date; negative before the epoch.
pub open spec fn unix_day_number(year: int, month: int, day: int) -> int {
    days_to_year(year) + days_before_month(year, month) + day - 1
}

/// Seconds since midnight of a time of day.
pub open spec fn seconds_of_day(hour: int, min: int, sec: int) -> int {
    hour * 3600 + min * 60 + sec
}

/// Microseconds since the Unix epoch of a UTC date and time.
pub open spec fn utc_micros(year: int, month: int, day: int, hour: int, min: int, sec: int) -> int {
    unix_day_number(year, month, day) * 86_400_000_000 + seconds_of_day(hour, min, sec)
        * 1_000_000
}

/// chrono: `NaiveDate::from_ymd_opt`, `NaiveTime::from_hms_opt`, `NaiveDateTime::new`,
/// `and_utc` and `timestamp_micros`, chained. The contract claims that chrono builds the
/// date-time exactly when the date and the time of day are valid, and that the
/// timestamp counts the non-leap microseconds since 1970-01-01T00:00:00 UTC, as
/// chrono documents `timestamp_micros`.
#[verifier::external_body]
fn chrono_utc_micros(year: i32, month: u32, day: u32, hour: u32, min: u32, sec: u32) -> (micros:
    Option<i64>)
    ensures
        micros.is_some() == (is_valid_date(year as int, month as int, day as int) && is_valid_time(
            hour as int,
            min as int,
            sec as int,
        )),
        micros.is_some() ==> micros.unwrap() == unix_day_number(
            year as int,
            month as int,
            day as int,
        ) * 86_400_000_000 + seconds_of_day(hour as int, min as int, sec as int) * 1_000_000,
{
    let date = chrono::NaiveDate::from_ymd_opt(year, month, day)?;
    let time = chrono::NaiveTime::from_hms_opt(hour, min, sec)?;
    Some(chrono::NaiveDateTime::new(date, time).and_utc().timestamp_micros())
}

/// Convert a UTC date and time into microseconds since the Unix epoch.
pub fn make_ts(year: i32, month: u32, day: u32, hour: u32, min: u32, sec: u32) -> (ts: i64)
    requires
        is_valid_date(year as int, month as int, day as int),
        is_valid_time(hour as int, min as int, sec as int),
    ensures
        ts == utc_micros(year as int, month as int, day as int, hour as int, min as int, sec as int),
{
    match chrono_utc_micros(year, month, day, hour, min, sec) {
        Some(ts) => ts,
        None => {
            assert(false);
            0
        },
    }
}

/// The `day` transform of a timestamp built from a calendar date and a time of
/// day gives back that date's day number.
pub proof fn lemma_day_of_timestamp(year: int, month: int, day: int, hour: int, min: int, sec: int)
    requires
        is_valid_time(hour, min, sec),
    ensures
        utc_micros(year, month, day, hour, min, sec) / 86_400_000_000 == unix_day_number(
            year,
            month,
            day,
        ),
{
    let d = unix_day_number(year, month, day);
    let s = seconds_of_day(hour, min, sec);
    assert(0 <= s < 86_400);
    let ts = utc_micros(year, month, day, hour, min, sec);
    assert(ts / 86_400_000_000 == d) by (nonlinear_arith)
        requires
            ts == d * 86_400_000_000 + s * 1_000_000,
            0 <= s < 86_400,
    ;
}

// ---------------------------------------------------------------------------
// Rows of the sample `events` table and their partition keys
// ---------------------------------------------------------------------------

/// Number of buckets of the `user_id_bucket` partition field.
pub const USER_ID_BUCKETS: u32 = 4;

/// Width of the `city_truncate` partition field.
pub const CITY_TRUNCATE_WIDTH: usize = 3;

/// One row of the `events` table.
pub struct RowData {
    pub event_id: i32,
    /// Microseconds since the Unix epoch (UTC).
    pub event_ts: i64,
    pub user_id: i64,
    pub city: String,
    pub payload: Option<String>,
}

/// The partition tuple of a row, in the order of the table's partition spec:
/// `identity(event_id)`, `day(event_ts)`, `bucket[4](user_id)`, `truncate[3](city)`.
#[derive(Debug)]
pub struct PartitionValues {
    pub event_id: i32,
    pub event_day: i32,
    pub user_bucket: i32,
    pub city_prefix: String,
}

/// Derive the hidden-partition values of a row from its source columns.
pub fn partition_values(row: &RowData) -> (p: PartitionValues)
    ensures
        p.event_id == row.event_id,
        p.event_day as int == (row.event_ts as int) / (MICROS_PER_DAY as int),
        p.user_bucket == bucket_of_long(row.user_id, USER_ID_BUCKETS),
        p.city_prefix@ == truncated(row.city@, CITY_TRUNCATE_WIDTH as int),
{
    PartitionValues {
        event_id: row.event_id,
        event_day: days_since_epoch(row.event_ts),
        user_bucket: bucket_hash_long(row.user_id, USER_ID_BUCKETS),
        city_prefix: truncate_str(row.city.as_str(), CITY_TRUNCATE_WIDTH),
    }
}

} // verus!
