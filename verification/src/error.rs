//! Errors of the job queue, and the text forms of identifiers and numbers that
//! their messages embed.

use vstd::prelude::*;

verus! {

/// A job identifier: the 128-bit value of a UUID, most significant byte first.
pub type JobId = u128;

/// Errors raised by the job store and the queue protocol.
#[derive(Debug)]
pub enum QueueError {
    JobNotFound(JobId),
    AlreadyClaimed(JobId),
    Serialization(String),
    Connection(String),
    Io(String),
    Gossip(String),
    Timeout,
    Shutdown,
}

/// Lower-case hexadecimal digit of a value below 16.
pub open spec fn hex_digit(n: int) -> char {
    if n < 10 {
        (48 + n) as char
    } else {
        (87 + n) as char
    }
}

/// The `i`-th hexadecimal digit of a 128-bit value, most significant first.
pub open spec fn nibble(id: u128, i: int) -> int {
    ((id >> ((4 * (31 - i)) as u128)) & 0xfu128) as int
}

/// How many hyphens precede position `j` of a hyphenated UUID.
pub open spec fn hyphens_before(j: int) -> int {
    if j < 9 {
        0
    } else if j < 14 {
        1
    } else if j < 19 {
        2
    } else if j < 24 {
        3
    } else {
        4
    }
}

/// The hyphenated lower-case text of a UUID (`8-4-4-4-12` hex digits).
pub open spec fn uuid_text(id: u128) -> Seq<char> {
    Seq::new(
        36,
        |j: int|
            if j == 8 || j == 13 || j == 18 || j == 23 {
                '-'
            } else {
                hex_digit(nibble(id, j - hyphens_before(j)))
            },
    )
}

/// Decimal text of a natural number, without leading zeros.
pub open spec fn decimal_text(n: nat) -> Seq<char>
    decreases n,
{
    if n < 10 {
        seq![(48 + n) as char]
    } else {
        decimal_text(n / 10).push((48 + n % 10) as char)
    }
}

/// uuid: `Uuid::from_u128(id).to_string()`. The contract claims that the
/// `Display` form of a UUID is its hyphenated lower-case hexadecimal text,
/// as uuid's `format_hyphenated` writes it.
#[verifier::external_body]
pub(crate) fn uuid_string(id: JobId) -> (text: String)
    ensures
        text@ == uuid_text(id),
{
    uuid::Uuid::from_u128(id).to_string()
}

/// std: the `Display` form of a `u64`, which is its decimal text.
#[verifier::external_body]
pub(crate) fn u64_string(n: u64) -> (text: String)
    ensures
        text@ == decimal_text(n as nat),
{
    format!("{}", n)
}

/// The message that the `Display` form of each error shows.
pub open spec fn error_text(e: QueueError) -> Seq<char> {
    match e {
        QueueError::JobNotFound(id) => "job not found: "@ + uuid_text(id),
        QueueError::AlreadyClaimed(id) => "job already claimed: "@ + uuid_text(id),
        QueueError::Serialization(m) => "serialization error: "@ + m@,
        QueueError::Connection(m) => "connection error: "@ + m@,
        QueueError::Io(m) => "io error: "@ + m@,
        QueueError::Gossip(m) => "gossip error: "@ + m@,
        QueueError::Timeout => "timeout"@,
        QueueError::Shutdown => "shutdown"@,
    }
}

/// A string holding `prefix` followed by `rest`.
pub fn concat_str(prefix: &str, rest: &str) -> (s: String)
    ensures
        s@ == prefix@ + rest@,
{
    let mut s = String::from_str(prefix);
    s.append(rest);
    s
}

impl QueueError {
    /// The human-readable message of this error.
    pub fn message(&self) -> (text: String)
        ensures
            text@ == error_text(*self),
    {
        match self {
            QueueError::JobNotFound(id) => {
                let id_text = uuid_string(*id);
                concat_str("job not found: ", id_text.as_str())
            },
            QueueError::AlreadyClaimed(id) => {
                let id_text = uuid_string(*id);
                concat_str("job already claimed: ", id_text.as_str())
            },
            QueueError::Serialization(m) => concat_str("serialization error: ", m.as_str()),
            QueueError::Connection(m) => concat_str("connection error: ", m.as_str()),
            QueueError::Io(m) => concat_str("io error: ", m.as_str()),
            QueueError::Gossip(m) => concat_str("gossip error: ", m.as_str()),
            QueueError::Timeout => String::from_str("timeout"),
            QueueError::Shutdown => String::from_str("shutdown"),
        }
    }
}

} // verus!
