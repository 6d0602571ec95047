//! Arrow IPC stream encoding of record batches.
//!
//! The batches themselves are arrow values that only arrow reads; the contracts
//! speak of them through named facts: the row count of each batch, in order,
//! and each batch's schema.

use std::sync::Arc;
use vstd::prelude::*;

verus! {

broadcast use vstd::seq_lib::group_seq_properties;

#[verifier::external_type_specification]
#[verifier::external_body]
pub struct ExSchema(arrow_schema::Schema);

#[verifier::external_type_specification]
#[verifier::external_body]
#[verifier::reject_recursive_types(W)]
pub struct ExStreamWriter<W>(arrow_ipc::writer::StreamWriter<W>);

/// Record batches, held as arrow-array values that only arrow reads.
#[verifier::external_body]
pub struct Batches {
    pub batches: Vec<arrow_array::RecordBatch>,
}

/// The number of rows of each batch held, in order.
pub uninterp spec fn batch_rows(b: Batches) -> Seq<nat>;

/// The schema of batch `i` (`RecordBatch::schema`).
pub uninterp spec fn batch_schema(b: Batches, i: int) -> arrow_schema::Schema;

/// Whether arrow-ipc can write a stream with this schema (its check that no
/// field holds a dictionary of dictionaries).
pub uninterp spec fn ipc_schema_ok(schema: arrow_schema::Schema) -> bool;

/// Whether arrow-ipc's `StreamReader` reads `bytes` as a complete Arrow IPC
/// stream (a schema message, record batches, and the end of the stream).
pub uninterp spec fn ipc_stream_ok(bytes: Seq<u8>) -> bool;

/// The number of rows of each batch that `StreamReader` reads from `bytes`, in
/// order.
pub uninterp spec fn ipc_batch_rows(bytes: Seq<u8>) -> Seq<nat>;

/// The number of rows of each batch a stream writer has written, in order.
pub uninterp spec fn written_rows(w: arrow_ipc::writer::StreamWriter<Vec<u8>>) -> Seq<nat>;

/// The schema a stream writer was started with.
pub uninterp spec fn stream_schema(w: arrow_ipc::writer::StreamWriter<Vec<u8>>) -> arrow_schema::Schema;

/// Whether every batch a stream writer has written had the stream's schema.
pub uninterp spec fn writes_fit(w: arrow_ipc::writer::StreamWriter<Vec<u8>>) -> bool;

/// Every batch held has schema `schema`.
pub open spec fn all_have_schema(b: Batches, schema: arrow_schema::Schema) -> bool {
    forall|i: int| 0 <= i < batch_rows(b).len() ==> #[trigger] batch_schema(b, i) == schema
}

/// What decoding makes of `bytes`: no batches for no bytes, the batches of a
/// well-formed stream, and nothing (`None`, an error) otherwise. Batches are
/// given by their row counts, in order.
pub open spec fn decoded_rows(bytes: Seq<u8>) -> Option<Seq<nat>> {
    if bytes.len() == 0 {
        Some(Seq::empty())
    } else if ipc_stream_ok(bytes) {
        Some(ipc_batch_rows(bytes))
    } else {
        None
    }
}

/// An empty list of batches (`Vec::new`).
#[verifier::external_body]
fn no_batches() -> (b: Batches)
    ensures
        batch_rows(b) == Seq::<nat>::empty(),
{
    Batches { batches: Vec::new() }
}

/// The number of batches held (`Vec::len`).
#[verifier::external_body]
fn count_batches(b: &Batches) -> (n: usize)
    ensures
        n == batch_rows(*b).len(),
{
    b.batches.len()
}

/// arrow-array: `RecordBatch::schema` of the first batch.
#[verifier::external_body]
fn first_schema(b: &Batches) -> (schema: Arc<arrow_schema::Schema>)
    requires
        batch_rows(*b).len() > 0,
    ensures
        *schema == batch_schema(*b, 0),
{
    b.batches[0].schema()
}

/// arrow-ipc: `StreamReader::try_new` over the bytes, then every batch it reads.
/// The contract claims that reading succeeds exactly on a well-formed stream,
/// and hands out the batches the stream holds, in order.
#[verifier::external_body]
fn read_ipc_stream(bytes: &[u8]) -> (r: Result<Batches, String>)
    ensures
        r is Ok == ipc_stream_ok(bytes@),
        r matches Ok(b) ==> batch_rows(b) == ipc_batch_rows(bytes@),
{
    let reader = arrow_ipc::reader::StreamReader::try_new(std::io::Cursor::new(bytes), None)
        .map_err(|e| format!("failed to create IPC reader: {e}"))?;
    let batches = reader
        .collect::<Result<Vec<_>, _>>()
        .map_err(|e| format!("failed to read IPC batches: {e}"))?;
    Ok(Batches { batches })
}

/// arrow-ipc: `StreamWriter::try_new` into an empty buffer, which checks the
/// schema and writes the schema message. The contract claims that it succeeds
/// exactly on a schema arrow-ipc can write, and that the new writer has written
/// no batch yet.
#[verifier::external_body]
fn start_ipc_stream(schema: &Arc<arrow_schema::Schema>) -> (r: Result<
    arrow_ipc::writer::StreamWriter<Vec<u8>>,
    String,
>)
    ensures
        r is Ok == ipc_schema_ok(**schema),
        r matches Ok(w) ==> written_rows(w) == Seq::<nat>::empty() && stream_schema(w)
            == **schema && writes_fit(w),
{
    arrow_ipc::writer::StreamWriter::try_new(Vec::new(), schema).map_err(
        |e| format!("failed to create IPC writer: {e}"),
    )
}

/// arrow-ipc: `StreamWriter::write` of batch `i`. The writer does not compare
/// the batch with the stream's schema. The contract claims that a batch with the
/// stream's schema is written (into a buffer, with dictionaries replaced rather
/// than refused), and that a successful write appends the batch, noting whether
/// it had the stream's schema. What comes of writing a batch with another schema
/// is left unsaid.
#[verifier::external_body]
fn write_ipc_batch(w: &mut arrow_ipc::writer::StreamWriter<Vec<u8>>, b: &Batches, i: usize) -> (r:
    Result<(), String>)
    requires
        i < batch_rows(*b).len(),
    ensures
        ipc_schema_ok(stream_schema(*old(w))) && batch_schema(*b, i as int) == stream_schema(
            *old(w),
        ) ==> r is Ok,
        r is Ok ==> written_rows(*final(w)) == written_rows(*old(w)).push(batch_rows(*b)[i as int]),
        r is Ok ==> stream_schema(*final(w)) == stream_schema(*old(w)),
        r is Ok ==> writes_fit(*final(w)) == (writes_fit(*old(w)) && batch_schema(*b, i as int)
            == stream_schema(*old(w))),
{
    w.write(&b.batches[i]).map_err(|e| format!("failed to write batch: {e}"))
}

/// arrow-ipc: `StreamWriter::into_inner`, which finishes the stream (writing its
/// end marker) and hands back the buffer. Writing into a buffer does not fail,
/// so neither does this. The contract claims that the buffer is not empty and,
/// when every batch written had the stream's schema, that `StreamReader` reads
/// it back with the batches written, in order.
#[verifier::external_body]
fn finish_ipc_stream(w: arrow_ipc::writer::StreamWriter<Vec<u8>>) -> (r: Result<Vec<u8>, String>)
    ensures
        r is Ok,
        r matches Ok(v) ==> v@.len() > 0,
        r matches Ok(v) ==> (writes_fit(w) ==> ipc_stream_ok(v@) && ipc_batch_rows(v@)
            == written_rows(w)),
{
    w.into_inner().map_err(|e| format!("failed to finish IPC stream: {e}"))
}

/// Encode record batches with an explicit schema. The schema must be one
/// arrow-ipc can write; when every batch has that schema, encoding succeeds and
/// what comes out decodes to the same batches, in order.
pub fn encode_batches_with_schema(schema: &Arc<arrow_schema::Schema>, b: &Batches) -> (r: Result<
    Vec<u8>,
    String,
>)
    ensures
        !ipc_schema_ok(**schema) ==> r is Err,
        ipc_schema_ok(**schema) && all_have_schema(*b, **schema) ==> r is Ok,
        r matches Ok(v) ==> v@.len() > 0,
        r matches Ok(v) ==> (all_have_schema(*b, **schema) ==> decoded_rows(v@) == Some(
            batch_rows(*b),
        )),
{
    let mut writer = start_ipc_stream(schema)?;
    let n = count_batches(b);
    let mut i: usize = 0;
    while i < n
        invariant
            n == batch_rows(*b).len(),
            i <= n,
            ipc_schema_ok(**schema),
            stream_schema(writer) == **schema,
            written_rows(writer) == batch_rows(*b).take(i as int),
            writes_fit(writer) == (forall|k: int| 0 <= k < i ==> #[trigger] batch_schema(*b, k) == **schema),
        decreases n - i,
    {
        assert(all_have_schema(*b, **schema) ==> batch_schema(*b, i as int) == **schema);
        write_ipc_batch(&mut writer, b, i)?;
        assert(batch_rows(*b).take(i + 1) =~= batch_rows(*b).take(i as int).push(
            batch_rows(*b)[i as int],
        ));
        assert((forall|k: int| 0 <= k < i + 1 ==> #[trigger] batch_schema(*b, k) == **schema)
            == ((forall|k: int| 0 <= k < i ==> #[trigger] batch_schema(*b, k) == **schema)
            && batch_schema(*b, i as int) == **schema));
        i = i + 1;
    }
    assert(batch_rows(*b).take(n as int) =~= batch_rows(*b));
    finish_ipc_stream(writer)
}

/// Encode record batches into Arrow IPC stream bytes, with the schema of the
/// first batch (as [`encode_batches_with_schema`] does). No batches give no
/// bytes. When every batch has the first one's schema and arrow-ipc can write
/// it, encoding succeeds and what comes out decodes to the same batches, in
/// order.
pub fn encode_batches(b: &Batches) -> (r: Result<Vec<u8>, String>)
    ensures
        batch_rows(*b).len() == 0 ==> (r matches Ok(v) && v@.len() == 0),
        batch_rows(*b).len() > 0 ==> {
            let schema = batch_schema(*b, 0);
            &&& !ipc_schema_ok(schema) ==> r is Err
            &&& ipc_schema_ok(schema) && all_have_schema(*b, schema) ==> r is Ok
            &&& r matches Ok(v) ==> v@.len() > 0
        },
        r matches Ok(v) ==> (all_have_schema(*b, batch_schema(*b, 0)) ==> decoded_rows(v@) == Some(
            batch_rows(*b),
        )),
{
    if count_batches(b) == 0 {
        return Ok(Vec::new());
    }
    let schema = first_schema(b);
    encode_batches_with_schema(&schema, b)
}

/// Decode record batches from Arrow IPC stream bytes. No bytes give no
/// batches; otherwise the bytes must be a well-formed stream, and its batches
/// come out in order.
pub fn decode_batches(bytes: &[u8]) -> (r: Result<Batches, String>)
    ensures
        match r {
            Ok(b) => decoded_rows(bytes@) == Some(batch_rows(b)),
            Err(_) => decoded_rows(bytes@) is None,
        },
{
    if bytes.len() == 0 {
        return Ok(no_batches());
    }
    read_ipc_stream(bytes)
}

} // verus!
