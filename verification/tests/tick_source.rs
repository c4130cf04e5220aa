use arrow::array::{Array, Int32Builder, Int64Builder, Int8Builder, UInt64Builder};
use arrow::datatypes::{DataType, Field, Schema};
use arrow::error::ArrowError;
use arrow::ffi_stream::{ArrowArrayStreamReader, FFI_ArrowArrayStream};
use arrow::record_batch::{RecordBatch, RecordBatchIterator};
use backtester_core::columns::{ColumnBatch, NamedColumn};
use backtester_core::tick_source::{ArrowTickSource, TickSource};
use backtester_core::types::Side;
use std::sync::Arc;

/// The columns of a record batch.
fn columns(batch: RecordBatch) -> ColumnBatch {
    let schema = batch.schema();
    let named = schema
        .fields()
        .iter()
        .zip(batch.columns())
        .map(|(field, column)| NamedColumn {
            name: field.name().clone(),
            data: column.to_data(),
        })
        .collect();
    ColumnBatch::try_new(named, batch.num_rows()).expect("columns of one length")
}

/// The columns of each batch of a stream.
fn column_stream(
    reader: ArrowArrayStreamReader,
) -> impl Iterator<Item = Result<ColumnBatch, ArrowError>> + Send {
    reader.map(|item| item.map(columns))
}

#[test]
fn test_arrow_tick_source_reads_batch_correctly() {
    let mut ts_builder = Int64Builder::new();
    ts_builder.append_value(1000);
    ts_builder.append_value(2000);

    let mut price_builder = Int64Builder::new();
    price_builder.append_value(100);
    price_builder.append_value(101);

    let mut qty_builder = Int64Builder::new();
    qty_builder.append_value(10);
    qty_builder.append_value(20);

    let mut side_builder = Int8Builder::new();
    side_builder.append_value(1);
    side_builder.append_value(-1);

    let ts_array = Arc::new(ts_builder.finish());
    let price_array = Arc::new(price_builder.finish());
    let qty_array = Arc::new(qty_builder.finish());
    let side_array = Arc::new(side_builder.finish());

    let schema = Arc::new(Schema::new(vec![
        Field::new("ts_exchange", DataType::Int64, false),
        Field::new("price", DataType::Int64, false),
        Field::new("qty", DataType::Int64, false),
        Field::new("side", DataType::Int8, false),
    ]));

    let batch = RecordBatch::try_new(
        schema.clone(),
        vec![ts_array, price_array, qty_array, side_array],
    )
    .unwrap();

    let iter = RecordBatchIterator::new(vec![Ok(batch)], schema);
    let stream = FFI_ArrowArrayStream::new(Box::new(iter));
    let reader = ArrowArrayStreamReader::try_new(stream).unwrap();

    let mut source = ArrowTickSource::try_new(1, column_stream(reader)).ok().expect("source");

    // First tick
    let t1 = source.next().expect("read tick 1").expect("tick 1");
    assert_eq!(t1.ts_exchange, 1000);
    assert_eq!(t1.price, 100);
    assert_eq!(t1.qty, 10);
    assert_eq!(t1.side, Side::Buy);

    // Second tick
    let t2 = source.next().expect("read tick 2").expect("tick 2");
    assert_eq!(t2.ts_exchange, 2000);
    assert_eq!(t2.price, 101);
    assert_eq!(t2.qty, 20);
    assert_eq!(t2.side, Side::Sell);

    // EOF
    assert!(source.next().expect("read eof").is_none());
}

#[test]
fn test_arrow_tick_source_reads_int64_side() {
    let mut ts_builder = Int64Builder::new();
    ts_builder.append_value(1000);
    ts_builder.append_value(2000);

    let mut price_builder = Int64Builder::new();
    price_builder.append_value(100);
    price_builder.append_value(101);

    let mut qty_builder = Int64Builder::new();
    qty_builder.append_value(10);
    qty_builder.append_value(20);

    let mut side_builder = Int64Builder::new();
    side_builder.append_value(1);
    side_builder.append_value(-1);

    let ts_array = Arc::new(ts_builder.finish());
    let price_array = Arc::new(price_builder.finish());
    let qty_array = Arc::new(qty_builder.finish());
    let side_array = Arc::new(side_builder.finish());

    let schema = Arc::new(Schema::new(vec![
        Field::new("ts_exchange", DataType::Int64, false),
        Field::new("price", DataType::Int64, false),
        Field::new("qty", DataType::Int64, false),
        Field::new("side", DataType::Int64, false),
    ]));

    let batch = RecordBatch::try_new(
        schema.clone(),
        vec![ts_array, price_array, qty_array, side_array],
    )
    .unwrap();

    let iter = RecordBatchIterator::new(vec![Ok(batch)], schema);
    let stream = FFI_ArrowArrayStream::new(Box::new(iter));
    let reader = ArrowArrayStreamReader::try_new(stream).unwrap();

    let mut source = ArrowTickSource::try_new(1, column_stream(reader)).ok().expect("source");

    let t1 = source.next().expect("read tick 1").expect("tick 1");
    assert_eq!(t1.side, Side::Buy);

    let t2 = source.next().expect("read tick 2").expect("tick 2");
    assert_eq!(t2.side, Side::Sell);

    assert!(source.next().expect("read eof").is_none());
}

#[test]
fn test_arrow_tick_source_casts_integer_columns_to_tick_types() {
    let mut ts_builder = Int32Builder::new();
    ts_builder.append_value(1000);
    ts_builder.append_value(2000);

    let mut price_builder = Int32Builder::new();
    price_builder.append_value(100);
    price_builder.append_value(101);

    let mut qty_builder = UInt64Builder::new();
    qty_builder.append_value(10);
    qty_builder.append_value(20);

    let mut side_builder = Int8Builder::new();
    side_builder.append_value(1);
    side_builder.append_value(-1);

    let mut seq_builder = UInt64Builder::new();
    seq_builder.append_value(10);
    seq_builder.append_value(11);

    let ts_array = Arc::new(ts_builder.finish());
    let price_array = Arc::new(price_builder.finish());
    let qty_array = Arc::new(qty_builder.finish());
    let side_array = Arc::new(side_builder.finish());
    let seq_array = Arc::new(seq_builder.finish());

    let schema = Arc::new(Schema::new(vec![
        Field::new("ts_exchange", DataType::Int32, false),
        Field::new("price", DataType::Int32, false),
        Field::new("qty", DataType::UInt64, false),
        Field::new("side", DataType::Int8, false),
        Field::new("seq", DataType::UInt64, false),
    ]));

    let batch = RecordBatch::try_new(
        schema.clone(),
        vec![ts_array, price_array, qty_array, side_array, seq_array],
    )
    .unwrap();

    let iter = RecordBatchIterator::new(vec![Ok(batch)], schema);
    let stream = FFI_ArrowArrayStream::new(Box::new(iter));
    let reader = ArrowArrayStreamReader::try_new(stream).unwrap();

    let mut source = ArrowTickSource::try_new(1, column_stream(reader)).ok().expect("source");

    let t1 = source.next().expect("read tick 1").expect("tick 1");
    assert_eq!(t1.ts_exchange, 1000);
    assert_eq!(t1.price, 100);
    assert_eq!(t1.qty, 10);
    assert_eq!(t1.seq, 10);

    let t2 = source.next().expect("read tick 2").expect("tick 2");
    assert_eq!(t2.ts_exchange, 2000);
    assert_eq!(t2.price, 101);
    assert_eq!(t2.qty, 20);
    assert_eq!(t2.seq, 11);

    assert!(source.next().expect("read eof").is_none());
}

#[test]
fn test_arrow_tick_source_missing_required_column_returns_error() {
    let mut ts_builder = Int64Builder::new();
    ts_builder.append_value(1000);

    let mut qty_builder = Int64Builder::new();
    qty_builder.append_value(10);

    let mut side_builder = Int8Builder::new();
    side_builder.append_value(1);

    let ts_array = Arc::new(ts_builder.finish());
    let qty_array = Arc::new(qty_builder.finish());
    let side_array = Arc::new(side_builder.finish());

    let schema = Arc::new(Schema::new(vec![
        Field::new("ts_exchange", DataType::Int64, false),
        Field::new("qty", DataType::Int64, false),
        Field::new("side", DataType::Int8, false),
    ]));

    let batch = RecordBatch::try_new(schema.clone(), vec![ts_array, qty_array, side_array])
        .expect("record batch");

    let iter = RecordBatchIterator::new(vec![Ok(batch)], schema);
    let stream = FFI_ArrowArrayStream::new(Box::new(iter));
    let reader = ArrowArrayStreamReader::try_new(stream).expect("reader");

    let err = match ArrowTickSource::try_new(1, column_stream(reader)) {
        Ok(_) => panic!("missing price must error"),
        Err(err) => err,
    };
    assert!(err.message().contains("missing price"));
}

#[test]
fn test_arrow_tick_source_invalid_side_returns_error() {
    let mut ts_builder = Int64Builder::new();
    ts_builder.append_value(1000);

    let mut price_builder = Int64Builder::new();
    price_builder.append_value(100);

    let mut qty_builder = Int64Builder::new();
    qty_builder.append_value(10);

    let mut side_builder = Int8Builder::new();
    side_builder.append_value(2);

    let ts_array = Arc::new(ts_builder.finish());
    let price_array = Arc::new(price_builder.finish());
    let qty_array = Arc::new(qty_builder.finish());
    let side_array = Arc::new(side_builder.finish());

    let schema = Arc::new(Schema::new(vec![
        Field::new("ts_exchange", DataType::Int64, false),
        Field::new("price", DataType::Int64, false),
        Field::new("qty", DataType::Int64, false),
        Field::new("side", DataType::Int8, false),
    ]));

    let batch = RecordBatch::try_new(
        schema.clone(),
        vec![ts_array, price_array, qty_array, side_array],
    )
    .expect("record batch");

    let iter = RecordBatchIterator::new(vec![Ok(batch)], schema);
    let stream = FFI_ArrowArrayStream::new(Box::new(iter));
    let reader = ArrowArrayStreamReader::try_new(stream).expect("reader");

    let err = match ArrowTickSource::try_new(1, column_stream(reader)) {
        Ok(_) => panic!("invalid side must error"),
        Err(err) => err,
    };
    assert!(err.message().contains("invalid side"));
}
