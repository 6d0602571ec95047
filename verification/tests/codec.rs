use std::sync::Arc;

use arrow_array::{Array, Float64Array, Int32Array, RecordBatch, StringArray};
use arrow_schema::{DataType, Field, Schema};
use meshwork::codec::{decode_batches, encode_batches, encode_batches_with_schema, Batches};

fn sample_batch() -> RecordBatch {
    let schema = Arc::new(Schema::new(vec![
        Field::new("id", DataType::Int32, false),
        Field::new("name", DataType::Utf8, true),
        Field::new("value", DataType::Float64, false),
    ]));
    RecordBatch::try_new(
        schema,
        vec![
            Arc::new(Int32Array::from(vec![1, 2, 3])),
            Arc::new(StringArray::from(vec![Some("alice"), None, Some("carol")])),
            Arc::new(Float64Array::from(vec![10.5, 20.0, 30.75])),
        ],
    )
    .unwrap()
}

fn batches(v: Vec<RecordBatch>) -> Batches {
    Batches { batches: v }
}

#[test]
fn roundtrip_single_batch() {
    let batch = sample_batch();
    let encoded = encode_batches(&batches(vec![batch.clone()])).unwrap();
    let decoded = decode_batches(&encoded).unwrap().batches;

    assert_eq!(decoded.len(), 1);
    assert_eq!(decoded[0], batch);
}

#[test]
fn roundtrip_multiple_batches() {
    let b1 = sample_batch();
    let b2 = sample_batch();
    let encoded = encode_batches(&batches(vec![b1.clone(), b2.clone()])).unwrap();
    let decoded = decode_batches(&encoded).unwrap().batches;

    assert_eq!(decoded.len(), 2);
    assert_eq!(decoded[0], b1);
    assert_eq!(decoded[1], b2);
}

#[test]
fn roundtrip_empty_batches() {
    let encoded = encode_batches(&batches(vec![])).unwrap();
    assert!(encoded.is_empty());
    let decoded = decode_batches(&encoded).unwrap().batches;
    assert!(decoded.is_empty());
}

#[test]
fn roundtrip_with_explicit_schema() {
    let batch = sample_batch();
    let schema = batch.schema();
    let encoded = encode_batches_with_schema(&schema, &batches(vec![batch.clone()])).unwrap();
    let decoded = decode_batches(&encoded).unwrap().batches;

    assert_eq!(decoded.len(), 1);
    assert_eq!(decoded[0].schema(), schema);
    assert_eq!(decoded[0], batch);
}

#[test]
fn encode_with_schema_no_batches() {
    let schema = Arc::new(Schema::new(vec![Field::new("x", DataType::Int32, false)]));
    let encoded = encode_batches_with_schema(&schema, &batches(vec![])).unwrap();
    // A valid IPC stream with just the schema and the end marker, no batches.
    assert!(!encoded.is_empty());
    let decoded = decode_batches(&encoded).unwrap().batches;
    assert!(decoded.is_empty());
}

#[test]
fn decode_invalid_bytes() {
    let result = decode_batches(b"this is not valid IPC");
    assert!(result.is_err());
}

#[test]
fn preserves_nulls() {
    let batch = sample_batch();
    let encoded = encode_batches(&batches(vec![batch])).unwrap();
    let decoded = decode_batches(&encoded).unwrap().batches;

    let names = decoded[0].column(1).as_any().downcast_ref::<StringArray>().unwrap();
    assert!(names.is_valid(0)); // "alice"
    assert!(names.is_null(1)); // null
    assert!(names.is_valid(2)); // "carol"
}

fn ids_batch(ids: Vec<i32>) -> RecordBatch {
    let schema = Arc::new(Schema::new(vec![Field::new("id", DataType::Int32, false)]));
    RecordBatch::try_new(schema, vec![Arc::new(Int32Array::from(ids))]).unwrap()
}

#[test]
fn roundtrip_keeps_batch_order() {
    let a = ids_batch(vec![1]);
    let b = ids_batch(vec![2, 3, 4]);
    let c = ids_batch(vec![5, 6]);
    let encoded = encode_batches(&batches(vec![a.clone(), b.clone(), c.clone()])).unwrap();
    let decoded = decode_batches(&encoded).unwrap().batches;
    let rows: Vec<usize> = decoded.iter().map(|x| x.num_rows()).collect();
    assert_eq!(rows, vec![1, 3, 2]);
    assert_eq!(decoded, vec![a, b, c]);
}

#[test]
fn encode_uses_the_first_schema() {
    let batch = sample_batch();
    let by_first = encode_batches(&batches(vec![batch.clone()])).unwrap();
    let explicit = encode_batches_with_schema(&batch.schema(), &batches(vec![batch])).unwrap();
    assert_eq!(by_first, explicit);
}

#[test]
fn batch_of_another_schema_is_written_but_not_read_back() {
    let text = Arc::new(Schema::new(vec![Field::new("name", DataType::Utf8, false)]));
    let encoded = encode_batches_with_schema(&text, &batches(vec![ids_batch(vec![1, 2])])).unwrap();
    assert!(!encoded.is_empty());
    assert!(decode_batches(&encoded).is_err());
}
