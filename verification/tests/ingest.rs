use backtester_core::event::EventKind;
use backtester_core::ingest::{
    checksum_columns, checksum_of_tables, events_from_tables, symbol_order, table_columns,
    ChecksumTable, IngestError, RequiredColumn, SymbolTable,
};

fn table(symbol: &str, ts: &[i64]) -> SymbolTable {
    SymbolTable {
        symbol: symbol.to_string(),
        ts_exchange: ts.to_vec(),
        price: vec![100; ts.len()],
        qty: vec![5; ts.len()],
        side: vec![1; ts.len()],
        seq: None,
        ts_local: None,
    }
}

fn names(list: &[&str]) -> Vec<String> {
    list.iter().map(|s| s.to_string()).collect()
}

fn symbols_in_order(list: &[&str]) -> Vec<String> {
    let symbols = names(list);
    symbol_order(&symbols).into_iter().map(|i| symbols[i].clone()).collect()
}

#[test]
fn symbols_are_numbered_in_dictionary_order() {
    assert_eq!(symbol_order(&names(&["ETH", "BTC", "BTCX", ""])), vec![3, 1, 2, 0]);
    assert_eq!(symbol_order(&Vec::new()), Vec::<usize>::new());
}

#[test]
fn symbol_ids_do_not_depend_on_the_order_of_the_input() {
    let a = symbols_in_order(&["b", "a", "\u{e9}", "Z"]);
    let b = symbols_in_order(&["\u{e9}", "Z", "b", "a"]);
    assert_eq!(a, b);
    assert_eq!(a, names(&["Z", "a", "b", "\u{e9}"]));
}

#[test]
fn each_row_is_a_trade_and_its_delivery() {
    let mut t = table("BTC", &[10, 30]);
    t.seq = Some(vec![4, 5]);
    let events = events_from_tables(&vec![t], 15).expect("events");
    let times: Vec<i64> = events.iter().map(|e| e.0).collect();
    assert_eq!(times, vec![10, 25, 30, 45]);
    match events[0].1 {
        EventKind::Tick(tick) => {
            assert_eq!((tick.ts_exchange, tick.ts_local, tick.seq), (10, 10, 4));
            assert_eq!((tick.symbol_id, tick.flags), (1, 1));
        }
        _ => panic!("not a trade"),
    }
    match events[1].1 {
        EventKind::TickDelivery(tick) => {
            assert_eq!((tick.ts_exchange, tick.ts_local, tick.seq), (10, 25, 4));
        }
        _ => panic!("not a delivery"),
    }
}

#[test]
fn events_of_one_time_keep_their_order() {
    let mut eth = table("ETH", &[20, 10]);
    eth.ts_local = Some(vec![20, 20]);
    let btc = table("BTC", &[20]);
    let events = events_from_tables(&vec![eth, btc], 0).expect("events");
    let of: Vec<(i64, u32, bool)> = events
        .iter()
        .map(|(ts, kind)| match kind {
            EventKind::Tick(t) => (*ts, t.symbol_id, true),
            EventKind::TickDelivery(t) => (*ts, t.symbol_id, false),
            _ => panic!("neither a trade nor a delivery"),
        })
        .collect();
    assert_eq!(
        of,
        vec![
            (10, 2, true),
            (20, 1, true),
            (20, 1, false),
            (20, 2, true),
            (20, 2, false),
            (20, 2, false),
        ]
    );
}

#[test]
fn delivery_times_saturate() {
    let events = events_from_tables(&vec![table("A", &[i64::MAX - 1])], 10).expect("events");
    assert_eq!(events[1].0, i64::MAX);
}

#[test]
fn faulty_tables_are_refused() {
    let mut t = table("A", &[1, 2]);
    t.price.pop();
    let e = events_from_tables(&vec![t], 0).expect_err("error");
    assert_eq!(e, IngestError::ColumnLengthsMismatch);
    assert_eq!(e.message(), "column lengths mismatch");

    let mut t = table("A", &[1, 2]);
    t.seq = Some(vec![1]);
    let e = events_from_tables(&vec![t], 0).expect_err("error");
    assert_eq!(e, IngestError::SeqLengthMismatch);
    assert_eq!(e.message(), "seq length mismatch");

    let mut t = table("A", &[1, 2]);
    t.ts_local = Some(vec![1]);
    let e = events_from_tables(&vec![t], 0).expect_err("error");
    assert_eq!(e, IngestError::TsLocalLengthMismatch);
    assert_eq!(e.message(), "ts_local length mismatch");

    let mut t = table("A", &[1, 2]);
    t.side[1] = 3;
    let e = events_from_tables(&vec![t], 0).expect_err("error");
    assert_eq!(e, IngestError::InvalidSide { value: 3 });
    assert_eq!(e.message(), "invalid side: invalid Side (expected 1, -1, or 0)");
}

#[test]
fn a_refused_table_leaves_the_rows_before_the_fault() {
    let mut t = table("A", &[1, 2, 3]);
    t.side[1] = 3;
    let mut events = Vec::new();
    assert!(t.append_events(1, 0, &mut events).is_err());
    assert_eq!(events.len(), 2);
}

#[test]
fn the_checksum_is_the_sum_of_all_cells() {
    let t = ChecksumTable {
        ts_exchange: vec![1, 2],
        price: vec![10, 20],
        qty: vec![100, 200],
        side: vec![1, -1],
        seq: Some(vec![1_000, 2_000]),
    };
    let mut u = t.clone();
    u.seq = None;
    assert_eq!(checksum_of_tables(&vec![t.clone(), u]), Ok(3_666));
    let mut wide = t.clone();
    wide.price = vec![i64::MAX, 1];
    wide.qty = vec![0, 0];
    // MAX + 1 + 3 + 3_000 wraps around.
    assert_eq!(checksum_of_tables(&vec![wide]), Ok(i64::MIN + 3_003));
    let mut short = t.clone();
    short.side.pop();
    assert_eq!(
        checksum_of_tables(&vec![t.clone(), short]),
        Err(IngestError::ColumnLengthsMismatch)
    );
    let mut short = t;
    short.seq = Some(vec![1]);
    assert_eq!(checksum_of_tables(&vec![short]), Err(IngestError::SeqLengthMismatch));
    assert_eq!(checksum_of_tables(&Vec::new()), Ok(0));
}

#[test]
fn columns_are_found_under_their_aliases() {
    let c = table_columns(&names(&["ts_event", "price", "size", "side", "seq"])).expect("columns");
    assert_eq!((c.ts_exchange, c.qty), ("ts_event", "size"));
    assert_eq!((c.has_seq, c.has_ts_local), (true, false));
    let both = ["ts_event", "ts_exchange", "price", "size", "qty", "side", "ts_local"];
    let c = table_columns(&names(&both)).expect("columns");
    assert_eq!((c.ts_exchange, c.qty), ("ts_exchange", "qty"));
    assert_eq!((c.has_seq, c.has_ts_local), (false, true));
}

#[test]
fn missing_columns_are_named() {
    let all = ["ts_exchange", "price", "qty", "side"];
    let missing = [
        (RequiredColumn::TsExchange, "missing ts_exchange"),
        (RequiredColumn::Price, "missing price"),
        (RequiredColumn::Qty, "missing qty"),
        (RequiredColumn::Side, "missing side"),
    ];
    for (i, (column, text)) in missing.into_iter().enumerate() {
        let mut rest = names(&all);
        rest.remove(i);
        let e = table_columns(&rest).expect_err("error");
        assert_eq!(e, IngestError::MissingColumn(column));
        assert_eq!(e.message(), text);
        assert_eq!(checksum_columns(&rest), Err(IngestError::MissingColumn(column)));
    }
    assert_eq!(checksum_columns(&names(&all)), Ok(false));
    assert_eq!(
        checksum_columns(&names(&["ts_event", "price", "qty", "side"])),
        Err(IngestError::MissingColumn(RequiredColumn::TsExchange))
    );
}
