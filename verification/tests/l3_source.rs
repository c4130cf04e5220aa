use arrow::array::{Array, Int64Array, Int64Builder, Int8Array, Int8Builder, UInt64Array, UInt64Builder};
use arrow::datatypes::{DataType, Field, Schema};
use arrow::error::ArrowError;
use arrow::ffi_stream::{ArrowArrayStreamReader, FFI_ArrowArrayStream};
use arrow::record_batch::{RecordBatch, RecordBatchIterator};
use backtester_core::columns::{ColumnBatch, NamedColumn};
use backtester_core::l3_source::{ArrowL3Source, L3Source};
use backtester_core::orderbook_l3::{L3_ADD, L3_DELETE};
use backtester_core::Side;
use std::sync::Arc;

/// The columns of a record batch.
fn columns(batch: RecordBatch) -> ColumnBatch {
    let schema = batch.schema();
    let named = schema
        .fields()
        .iter()
        .zip(batch.columns())
        .map(|(field, column)| NamedColumn {
            name: field.name().clone(),
            data: column.to_data(),
        })
        .collect();
    ColumnBatch::try_new(named, batch.num_rows()).expect("columns of one length")
}

/// The columns of each batch of a stream.
fn column_stream(
    reader: ArrowArrayStreamReader,
) -> impl Iterator<Item = Result<ColumnBatch, ArrowError>> + Send {
    reader.map(|item| item.map(columns))
}

fn make_l3_stream(
    ts: &[i64],
    price: &[i64],
    qty: &[i64],
    side: &[i8],
    order_id: &[u64],
    action: &[i8],
) -> ArrowArrayStreamReader {
    let mut ts_b = Int64Builder::new();
    let mut price_b = Int64Builder::new();
    let mut qty_b = Int64Builder::new();
    let mut side_b = Int8Builder::new();
    let mut oid_b = UInt64Builder::new();
    let mut act_b = Int8Builder::new();

    for &v in ts {
        ts_b.append_value(v);
    }
    for &v in price {
        price_b.append_value(v);
    }
    for &v in qty {
        qty_b.append_value(v);
    }
    for &v in side {
        side_b.append_value(v);
    }
    for &v in order_id {
        oid_b.append_value(v);
    }
    for &v in action {
        act_b.append_value(v);
    }

    let schema = Arc::new(Schema::new(vec![
        Field::new("ts_exchange", DataType::Int64, false),
        Field::new("price", DataType::Int64, false),
        Field::new("qty", DataType::Int64, false),
        Field::new("side", DataType::Int8, false),
        Field::new("order_id", DataType::UInt64, false),
        Field::new("action", DataType::Int8, false),
    ]));

    let batch = RecordBatch::try_new(
        schema.clone(),
        vec![
            Arc::new(ts_b.finish()),
            Arc::new(price_b.finish()),
            Arc::new(qty_b.finish()),
            Arc::new(side_b.finish()),
            Arc::new(oid_b.finish()),
            Arc::new(act_b.finish()),
        ],
    )
    .unwrap();

    let iter = RecordBatchIterator::new(vec![Ok(batch)], schema);
    let stream = FFI_ArrowArrayStream::new(Box::new(iter));
    ArrowArrayStreamReader::try_new(stream).unwrap()
}

#[test]
fn test_arrow_l3_source_reads_batch_correctly() {
    let reader = make_l3_stream(
        &[1000, 2000],
        &[100, 100],
        &[10, 5],
        &[1, 1],
        &[42, 43],
        &[1, 3], // ADD, DELETE
    );

    let mut source = ArrowL3Source::try_new(1, column_stream(reader)).ok().expect("source");

    let u1 = source.next().unwrap().unwrap();
    assert_eq!(u1.ts_exchange, 1000);
    assert_eq!(u1.order_id, 42);
    assert_eq!(u1.qty, 10);
    assert_eq!(u1.side, Side::Buy);
    assert_eq!(u1.action, 1); // ADD

    let u2 = source.next().unwrap().unwrap();
    assert_eq!(u2.order_id, 43);
    assert_eq!(u2.action, 3); // DELETE

    assert!(source.next().unwrap().is_none());
}

#[test]
fn test_arrow_l3_source_missing_order_id_returns_error() {
    let mut ts_b = Int64Builder::new();
    ts_b.append_value(1000);
    let mut price_b = Int64Builder::new();
    price_b.append_value(100);
    let mut qty_b = Int64Builder::new();
    qty_b.append_value(10);
    let mut side_b = Int8Builder::new();
    side_b.append_value(1);
    let mut act_b = Int8Builder::new();
    act_b.append_value(1);

    let schema = Arc::new(Schema::new(vec![
        Field::new("ts_exchange", DataType::Int64, false),
        Field::new("price", DataType::Int64, false),
        Field::new("qty", DataType::Int64, false),
        Field::new("side", DataType::Int8, false),
        Field::new("action", DataType::Int8, false),
    ]));

    let batch = RecordBatch::try_new(
        schema.clone(),
        vec![
            Arc::new(ts_b.finish()),
            Arc::new(price_b.finish()),
            Arc::new(qty_b.finish()),
            Arc::new(side_b.finish()),
            Arc::new(act_b.finish()),
        ],
    )
    .unwrap();

    let iter = RecordBatchIterator::new(vec![Ok(batch)], schema);
    let stream = FFI_ArrowArrayStream::new(Box::new(iter));
    let reader = ArrowArrayStreamReader::try_new(stream).unwrap();

    let err = match ArrowL3Source::try_new(1, column_stream(reader)) {
        Ok(_) => panic!("missing order_id must fail"),
        Err(err) => err,
    };
    assert!(err.message().contains("missing order_id"));
}

fn reader(batch: RecordBatch) -> ArrowArrayStreamReader {
    let schema = batch.schema();
    let iter = RecordBatchIterator::new(vec![Ok(batch)], schema);
    let stream = FFI_ArrowArrayStream::new(Box::new(iter));
    ArrowArrayStreamReader::try_new(stream).expect("reader")
}

#[test]
fn arrow_l3_source_reads_required_order_id_and_action_columns() {
    let schema = Arc::new(Schema::new(vec![
        Field::new("ts_exchange", DataType::Int64, false),
        Field::new("price", DataType::Int64, false),
        Field::new("qty", DataType::Int64, false),
        Field::new("side", DataType::Int8, false),
        Field::new("order_id", DataType::UInt64, false),
        Field::new("action", DataType::Int8, false),
    ]));
    let batch = RecordBatch::try_new(
        schema,
        vec![
            Arc::new(Int64Array::from(vec![1_000, 2_000])),
            Arc::new(Int64Array::from(vec![100, 100])),
            Arc::new(Int64Array::from(vec![5, 0])),
            Arc::new(Int8Array::from(vec![1, 1])),
            Arc::new(UInt64Array::from(vec![20, 20])),
            Arc::new(Int8Array::from(vec![L3_ADD as i8, L3_DELETE as i8])),
        ],
    )
    .expect("batch");

    let mut source = ArrowL3Source::try_new(7, column_stream(reader(batch))).ok().expect("source");
    let first = source.next().expect("next").expect("first update");
    assert_eq!(first.symbol_id, 7);
    assert_eq!(first.order_id, 20);
    assert_eq!(first.side, Side::Buy);
    assert_eq!(first.action, L3_ADD);

    let second = source.next().expect("next").expect("second update");
    assert_eq!(second.action, L3_DELETE);
    assert!(source.next().expect("next").is_none());
}

#[test]
fn arrow_l3_source_missing_order_id_is_a_schema_error() {
    let schema = Arc::new(Schema::new(vec![
        Field::new("ts_exchange", DataType::Int64, false),
        Field::new("price", DataType::Int64, false),
        Field::new("qty", DataType::Int64, false),
        Field::new("side", DataType::Int8, false),
        Field::new("action", DataType::Int8, false),
    ]));
    let batch = RecordBatch::try_new(
        schema,
        vec![
            Arc::new(Int64Array::from(vec![1_000])),
            Arc::new(Int64Array::from(vec![100])),
            Arc::new(Int64Array::from(vec![5])),
            Arc::new(Int8Array::from(vec![1])),
            Arc::new(Int8Array::from(vec![L3_ADD as i8])),
        ],
    )
    .expect("batch");

    let err = match ArrowL3Source::try_new(7, column_stream(reader(batch))) {
        Ok(_) => panic!("missing order_id must fail"),
        Err(err) => err,
    };
    assert!(err.message().contains("missing order_id"));
}
