use arrow::array::{
    Array, ArrayData, Float64Array, Int32Array, Int64Array, Int8Array, StringArray, UInt64Array,
};
use arrow::error::ArrowError;
use backtester_core::columns::{ColumnBatch, NamedColumn};
use backtester_core::l3_source::{ArrowL3Source, L3Source};
use backtester_core::tick_source::{
    ArrowTickSource, CachedBatch, IntType, TickSource, TickSourceError,
};
use backtester_core::types::Side;

type Item = Result<ColumnBatch, ArrowError>;

fn ints(values: &[i64]) -> ArrayData {
    Int64Array::from(values.to_vec()).to_data()
}

fn column(name: &str, data: ArrayData) -> NamedColumn {
    NamedColumn {
        name: name.to_string(),
        data,
    }
}

fn tick_columns(n: usize) -> Vec<NamedColumn> {
    let ts: Vec<i64> = (0..n as i64).map(|i| 1_000 + i).collect();
    vec![
        column("ts_exchange", ints(&ts)),
        column("price", ints(&vec![100; n])),
        column("qty", ints(&vec![5; n])),
        column("side", ints(&vec![1; n])),
    ]
}

fn batch(columns: Vec<NamedColumn>, rows: usize) -> ColumnBatch {
    ColumnBatch::try_new(columns, rows).expect("columns of one length")
}

fn replaced(name: &str, data: ArrayData) -> Vec<NamedColumn> {
    let mut columns = tick_columns(2);
    for c in columns.iter_mut() {
        if c.name == name {
            c.data = data.clone();
        }
    }
    columns
}

fn failure(columns: Vec<NamedColumn>) -> TickSourceError {
    let items: Vec<Item> = vec![Ok(batch(columns, 2))];
    match ArrowTickSource::try_new(1, items.into_iter()) {
        Ok(_) => panic!("the source was accepted"),
        Err(e) => e,
    }
}

#[test]
fn columns_of_different_lengths_make_no_batch() {
    let columns = vec![column("a", ints(&[1, 2])), column("b", ints(&[1]))];
    assert!(ColumnBatch::try_new(columns, 2).is_none());
    let columns = vec![column("a", ints(&[1, 2])), column("b", ints(&[3, 4]))];
    let b = ColumnBatch::try_new(columns, 2).expect("batch");
    assert_eq!(b.num_rows(), 2);
    assert!(b.column_by_name("b").is_some());
    assert!(b.column_by_name("c").is_none());
}

#[test]
fn a_missing_column_is_named_with_its_aliases() {
    let columns = tick_columns(2).into_iter().filter(|c| c.name != "qty").collect();
    let e = failure(columns);
    assert_eq!(e.message(), "missing qty/size");
    assert!(matches!(e, TickSourceError::MissingColumn { names } if names == ["qty", "size"]));
    let columns = tick_columns(2).into_iter().filter(|c| c.name != "price").collect();
    assert_eq!(failure(columns).message(), "missing price");
}

#[test]
fn aliases_stand_for_the_columns() {
    let mut columns = tick_columns(2);
    columns[0].name = "ts_event".to_string();
    columns[2].name = "size".to_string();
    let items: Vec<Item> = vec![Ok(batch(columns, 2))];
    let mut source = ArrowTickSource::try_new(3, items.into_iter()).ok().expect("source");
    let tick = source.next().expect("read").expect("tick");
    assert_eq!((tick.ts_exchange, tick.qty, tick.symbol_id), (1_000, 5, 3));
    assert_eq!(source.symbol_id(), 3);
}

#[test]
fn a_column_of_another_kind_is_refused() {
    let e = failure(replaced("price", Float64Array::from(vec![1.0, 2.0]).to_data()));
    assert_eq!(e.message(), "price is not an integer column (got Float64)");
    let e = failure(replaced("side", StringArray::from(vec!["1", "2"]).to_data()));
    assert_eq!(e.message(), "side is not an integer column (got Utf8)");
}

#[test]
fn a_column_with_nulls_is_refused() {
    let e = failure(replaced("qty", Int64Array::from(vec![Some(1), None]).to_data()));
    assert_eq!(e.message(), "qty column contains nulls");
    assert!(matches!(e, TickSourceError::NullColumn { name } if name == "qty"));
}

#[test]
fn values_that_do_not_fit_are_refused() {
    let e = failure(replaced("side", ints(&[1, 300])));
    assert_eq!(e.message(), "side contains values out of Int8 range");
    assert!(matches!(
        e,
        TickSourceError::OutOfRange { target_type: IntType::Int8, .. }
    ));
    let wide = UInt64Array::from(vec![1, u64::MAX]).to_data();
    let e = failure(replaced("price", wide));
    assert_eq!(e.message(), "price contains values out of Int64 range");
    let mut columns = tick_columns(2);
    columns.push(column("seq", ints(&[0, -1])));
    assert_eq!(failure(columns).message(), "seq contains values out of UInt64 range");
}

#[test]
fn narrow_columns_are_widened() {
    let columns = replaced("price", Int32Array::from(vec![-7, 8]).to_data());
    let items: Vec<Item> = vec![Ok(batch(columns, 2))];
    let mut source = ArrowTickSource::try_new(1, items.into_iter()).ok().expect("source");
    assert_eq!(source.next().expect("read").expect("tick").price, -7);
    assert_eq!(source.next().expect("read").expect("tick").price, 8);
}

#[test]
fn an_unknown_side_stops_the_stream_at_its_row() {
    let columns = replaced("side", Int8Array::from(vec![-1, 5]).to_data());
    let cached = CachedBatch::new(&batch(columns, 2)).ok().expect("batch");
    assert_eq!(cached.num_rows(), 2);
    assert_eq!(cached.read_tick_at(1, 0, 0).ok().expect("tick").side, Side::Sell);
    let e = cached.read_tick_at(1, 0, 1).err().expect("error");
    assert_eq!(e.message(), "invalid side 5 (expected 1, -1, or 0)");

    let columns = replaced("side", Int8Array::from(vec![-128, 1]).to_data());
    assert_eq!(failure(columns).message(), "invalid side -128 (expected 1, -1, or 0)");
}

#[test]
fn a_failing_reader_is_reported() {
    let items: Vec<Item> = vec![
        Ok(batch(tick_columns(1), 1)),
        Err(ArrowError::ComputeError("broken".to_string())),
    ];
    let mut source = ArrowTickSource::try_new(1, items.into_iter()).ok().expect("source");
    assert_eq!(source.peek().expect("peek").map(|t| t.ts_exchange), Some(1_000));
    let e = source.next().err().expect("error");
    assert_eq!(e.message(), "error reading arrow stream: Compute error: broken");
    assert!(matches!(e, TickSourceError::Reader(_)));
}

#[test]
fn empty_batches_are_passed_over() {
    let items: Vec<Item> = vec![
        Ok(batch(tick_columns(0), 0)),
        Ok(batch(tick_columns(1), 1)),
        Ok(batch(tick_columns(0), 0)),
    ];
    let mut source = ArrowTickSource::try_new(1, items.into_iter()).ok().expect("source");
    assert!(source.next().expect("read").is_some());
    assert!(source.next().expect("read").is_none());
    assert!(source.peek().expect("peek").is_none());
}

#[test]
fn missing_optional_columns_read_as_zero() {
    let items: Vec<Item> = vec![Ok(batch(tick_columns(1), 1))];
    let mut source = ArrowTickSource::try_new(1, items.into_iter()).ok().expect("source");
    let tick = source.next().expect("read").expect("tick");
    assert_eq!((tick.seq, tick.ts_local), (0, 0));
    let mut columns = tick_columns(1);
    columns.push(column("seq", ints(&[12])));
    columns.push(column("ts_local", ints(&[34])));
    let items: Vec<Item> = vec![Ok(batch(columns, 1))];
    let mut source = ArrowTickSource::try_new(1, items.into_iter()).ok().expect("source");
    let tick = source.next().expect("read").expect("tick");
    assert_eq!((tick.seq, tick.ts_local), (12, 34));
}

#[test]
fn a_book_stream_reads_its_sequence_numbers() {
    let columns = vec![
        column("ts_exchange", ints(&[5])),
        column("order_id", ints(&[77])),
        column("price", ints(&[100])),
        column("qty", ints(&[3])),
        column("side", ints(&[-1])),
        column("action", ints(&[1])),
        column("seq", ints(&[9])),
    ];
    let items: Vec<Item> = vec![Ok(batch(columns, 1))];
    let mut source = ArrowL3Source::try_new(4, items.into_iter()).ok().expect("source");
    let update = source.next().expect("read").expect("update");
    assert_eq!((update.order_id, update.seq, update.symbol_id), (77, 9, 4));
    assert_eq!(update.side, Side::Sell);
    assert!(source.next().expect("read").is_none());
}

#[test]
fn rows_are_numbered_where_there_is_no_sequence_column() {
    let items: Vec<Item> = vec![
        Ok(batch(tick_columns(2), 2)),
        Ok(batch(tick_columns(0), 0)),
        Ok(batch(tick_columns(3), 3)),
    ];
    let mut source = ArrowTickSource::try_new(1, items.into_iter()).ok().expect("source");
    let mut seqs = Vec::new();
    while let Some(tick) = source.next().expect("read") {
        seqs.push(tick.seq);
    }
    assert_eq!(seqs, vec![0, 1, 2, 3, 4]);
}

#[test]
fn flags_are_read_where_they_are_given() {
    let mut columns = tick_columns(2);
    columns.push(column("flags", ints(&[1, 12])));
    let items: Vec<Item> = vec![Ok(batch(columns, 2))];
    let mut source = ArrowTickSource::try_new(1, items.into_iter()).ok().expect("source");
    assert_eq!(source.next().expect("read").expect("tick").flags, 1);
    assert_eq!(source.next().expect("read").expect("tick").flags, 12);
    let mut columns = tick_columns(2);
    columns.push(column("flags", ints(&[1, 256])));
    assert_eq!(failure(columns).message(), "flags contains values out of UInt8 range");
    let items: Vec<Item> = vec![Ok(batch(tick_columns(1), 1))];
    let mut source = ArrowTickSource::try_new(1, items.into_iter()).ok().expect("source");
    assert_eq!(source.next().expect("read").expect("tick").flags, 0);
}

#[test]
fn book_rows_are_numbered_where_there_is_no_sequence_column() {
    let book = || {
        batch(
            vec![
                column("ts_exchange", ints(&[5, 6])),
                column("order_id", ints(&[77, 78])),
                column("price", ints(&[100, 100])),
                column("qty", ints(&[3, 3])),
                column("side", ints(&[-1, 1])),
                column("action", ints(&[1, 1])),
            ],
            2,
        )
    };
    let items: Vec<Item> = vec![Ok(book()), Ok(book())];
    let mut source = ArrowL3Source::try_new(4, items.into_iter()).ok().expect("source");
    let mut seqs = Vec::new();
    while let Some(update) = source.next().expect("read") {
        seqs.push(update.seq);
    }
    assert_eq!(seqs, vec![0, 1, 2, 3]);
}
