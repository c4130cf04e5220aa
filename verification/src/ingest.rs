//! From tables of market data, one per symbol, to the events of a simulation.
use vstd::prelude::*;

use crate::event::EventKind;
use crate::math::{clamp_i64, sat_add};
use crate::text::{
    comes_no_later, lemma_text_order, lemma_text_order_transitive, same_text, text_le,
};
use crate::tick_source::side_of;
use crate::types::{Side, Tick};

verus! {

/// The market data of one symbol, as columns.
#[derive(Debug, Clone)]
pub struct SymbolTable {
    pub symbol: String,
    pub ts_exchange: Vec<i64>,
    pub price: Vec<i64>,
    pub qty: Vec<i64>,
    pub side: Vec<i8>,
    pub seq: Option<Vec<u64>>,
    pub ts_local: Option<Vec<i64>>,
}

/// The columns that a table must have.
#[derive(Debug, Clone, Copy, PartialEq, Eq, Structural)]
pub enum RequiredColumn {
    TsExchange,
    Price,
    Qty,
    Side,
}

/// Why a table cannot be turned into events.
#[derive(Debug, Clone, Copy, PartialEq, Eq, Structural)]
pub enum IngestError {
    MissingColumn(RequiredColumn),
    ColumnLengthsMismatch,
    SeqLengthMismatch,
    TsLocalLengthMismatch,
    InvalidSide { value: i8 },
}

impl IngestError {
    /// The text for users.
    pub fn message(&self) -> (r: &'static str)
        ensures
            r@ == match self {
                IngestError::MissingColumn(RequiredColumn::TsExchange) => "missing ts_exchange"@,
                IngestError::MissingColumn(RequiredColumn::Price) => "missing price"@,
                IngestError::MissingColumn(RequiredColumn::Qty) => "missing qty"@,
                IngestError::MissingColumn(RequiredColumn::Side) => "missing side"@,
                IngestError::ColumnLengthsMismatch => "column lengths mismatch"@,
                IngestError::SeqLengthMismatch => "seq length mismatch"@,
                IngestError::TsLocalLengthMismatch => "ts_local length mismatch"@,
                IngestError::InvalidSide {
                    ..
                } => "invalid side: invalid Side (expected 1, -1, or 0)"@,
            },
    {
        match self {
            IngestError::MissingColumn(RequiredColumn::TsExchange) => "missing ts_exchange",
            IngestError::MissingColumn(RequiredColumn::Price) => "missing price",
            IngestError::MissingColumn(RequiredColumn::Qty) => "missing qty",
            IngestError::MissingColumn(RequiredColumn::Side) => "missing side",
            IngestError::ColumnLengthsMismatch => "column lengths mismatch",
            IngestError::SeqLengthMismatch => "seq length mismatch",
            IngestError::TsLocalLengthMismatch => "ts_local length mismatch",
            IngestError::InvalidSide {
                ..
            } => "invalid side: invalid Side (expected 1, -1, or 0)",
        }
    }
}

/// Whether a column of this name is there.
pub open spec fn has_column(present: Seq<String>, name: Seq<char>) -> bool {
    exists|i: int| 0 <= i < present.len() && (#[trigger] present[i])@ == name
}

/// The first required column that is not there, under its name or its alias.
pub open spec fn missing_column(present: Seq<String>, with_aliases: bool) -> Option<
    RequiredColumn,
> {
    if !(has_column(present, "ts_exchange"@) || (with_aliases && has_column(
        present,
        "ts_event"@,
    ))) {
        Some(RequiredColumn::TsExchange)
    } else if !has_column(present, "price"@) {
        Some(RequiredColumn::Price)
    } else if !(has_column(present, "qty"@) || (with_aliases && has_column(present, "size"@))) {
        Some(RequiredColumn::Qty)
    } else if !has_column(present, "side"@) {
        Some(RequiredColumn::Side)
    } else {
        None
    }
}

/// The columns to read a table from; price and side go by these names.
#[derive(Debug, Clone, Copy, PartialEq, Eq)]
pub struct TableColumns {
    pub ts_exchange: &'static str,
    pub qty: &'static str,
    pub has_seq: bool,
    pub has_ts_local: bool,
}

fn is_present(present: &Vec<String>, name: &str) -> (r: bool)
    ensures
        r == has_column(present@, name@),
{
    let mut i: usize = 0;
    while i < present.len()
        invariant
            i <= present@.len(),
            forall|k: int| 0 <= k < i ==> (#[trigger] present@[k])@ != name@,
        decreases present@.len() - i,
    {
        if same_text(present[i].as_str(), name) {
            return true;
        }
        i = i + 1;
    }
    false
}

/// The columns to read the market data of a symbol from, among those that are there: a
/// name comes before its alias.
pub fn table_columns(present: &Vec<String>) -> (r: Result<TableColumns, IngestError>)
    ensures
        match missing_column(present@, true) {
            Some(column) => r == Err::<TableColumns, IngestError>(
                IngestError::MissingColumn(column),
            ),
            None => {
                &&& r matches Ok(columns)
                &&& r.unwrap().ts_exchange@ == if has_column(present@, "ts_exchange"@) {
                    "ts_exchange"@
                } else {
                    "ts_event"@
                }
                &&& r.unwrap().qty@ == if has_column(present@, "qty"@) {
                    "qty"@
                } else {
                    "size"@
                }
                &&& r.unwrap().has_seq == has_column(present@, "seq"@)
                &&& r.unwrap().has_ts_local == has_column(present@, "ts_local"@)
            },
        },
{
    let ts_exchange: &'static str = if is_present(present, "ts_exchange") {
        "ts_exchange"
    } else if is_present(present, "ts_event") {
        "ts_event"
    } else {
        return Err(IngestError::MissingColumn(RequiredColumn::TsExchange));
    };
    if !is_present(present, "price") {
        return Err(IngestError::MissingColumn(RequiredColumn::Price));
    }
    let qty: &'static str = if is_present(present, "qty") {
        "qty"
    } else if is_present(present, "size") {
        "size"
    } else {
        return Err(IngestError::MissingColumn(RequiredColumn::Qty));
    };
    if !is_present(present, "side") {
        return Err(IngestError::MissingColumn(RequiredColumn::Side));
    }
    Ok(
        TableColumns {
            ts_exchange,
            qty,
            has_seq: is_present(present, "seq"),
            has_ts_local: is_present(present, "ts_local"),
        },
    )
}

/// Whether a checksum of these columns includes sequence numbers; the required columns
/// must be there under their own names.
pub fn checksum_columns(present: &Vec<String>) -> (r: Result<bool, IngestError>)
    ensures
        r == match missing_column(present@, false) {
            Some(column) => Err::<bool, IngestError>(IngestError::MissingColumn(column)),
            None => Ok(has_column(present@, "seq"@)),
        },
{
    if !is_present(present, "ts_exchange") {
        Err(IngestError::MissingColumn(RequiredColumn::TsExchange))
    } else if !is_present(present, "price") {
        Err(IngestError::MissingColumn(RequiredColumn::Price))
    } else if !is_present(present, "qty") {
        Err(IngestError::MissingColumn(RequiredColumn::Qty))
    } else if !is_present(present, "side") {
        Err(IngestError::MissingColumn(RequiredColumn::Side))
    } else {
        Ok(is_present(present, "seq"))
    }
}

impl SymbolTable {
    /// The number of rows.
    pub open spec fn rows(&self) -> nat {
        self.ts_exchange@.len()
    }

    /// What is wrong with the lengths of the columns.
    pub open spec fn length_fault(&self) -> Option<IngestError> {
        let n = self.rows();
        if self.price@.len() != n || self.qty@.len() != n || self.side@.len() != n {
            Some(IngestError::ColumnLengthsMismatch)
        } else if self.seq matches Some(v) && v@.len() != n {
            Some(IngestError::SeqLengthMismatch)
        } else if self.ts_local matches Some(v) && v@.len() != n {
            Some(IngestError::TsLocalLengthMismatch)
        } else {
            None
        }
    }

    /// The trade in a row, as it happened at the exchange.
    pub open spec fn truth(&self, symbol_id: u32, i: int) -> Tick {
        Tick {
            ts_exchange: self.ts_exchange@[i],
            ts_local: self.ts_exchange@[i],
            seq: match self.seq {
                Some(v) => v@[i],
                None => i as u64,
            },
            price: self.price@[i],
            qty: self.qty@[i],
            symbol_id,
            side: side_of(self.side@[i] as int).unwrap(),
            flags: 0x01,
        }
    }

    /// When the trade in a row reaches the strategy.
    pub open spec fn arrival(&self, feed_latency_ns: i64, i: int) -> i64 {
        match self.ts_local {
            Some(v) => v@[i],
            None => clamp_i64(self.ts_exchange@[i] + feed_latency_ns),
        }
    }

    /// The two events of a row: the trade at the exchange, and its delivery.
    pub open spec fn row_events(&self, symbol_id: u32, feed_latency_ns: i64, i: int) -> Seq<
        (i64, EventKind),
    > {
        let truth = self.truth(symbol_id, i);
        let arrival = self.arrival(feed_latency_ns, i);
        seq![
            (truth.ts_exchange, EventKind::Tick(truth)),
            (arrival, EventKind::TickDelivery(Tick { ts_local: arrival, ..truth })),
        ]
    }

    /// The events of the first `n` rows, in the order of the rows; an unknown side code
    /// in the first row that has one is the error.
    pub open spec fn events(&self, symbol_id: u32, feed_latency_ns: i64, n: nat) -> Result<
        Seq<(i64, EventKind)>,
        IngestError,
    >
        decreases n,
    {
        if n == 0 {
            Ok(Seq::empty())
        } else {
            match self.events(symbol_id, feed_latency_ns, (n - 1) as nat) {
                Err(e) => Err(e),
                Ok(before) => if side_of(self.side@[n - 1] as int) is Some {
                    Ok(before + self.row_events(symbol_id, feed_latency_ns, n - 1))
                } else {
                    Err(IngestError::InvalidSide { value: self.side@[n - 1] })
                },
            }
        }
    }

    /// The events of a table, or what is wrong with it: lengths first, then rows.
    pub open spec fn outcome(&self, symbol_id: u32, feed_latency_ns: i64) -> Result<
        Seq<(i64, EventKind)>,
        IngestError,
    > {
        match self.length_fault() {
            Some(e) => Err(e),
            None => self.events(symbol_id, feed_latency_ns, self.rows()),
        }
    }

    /// Whether the table is taken in up to a row and no further: none of it where the
    /// lengths are wrong, else all before the first row whose side is unknown.
    pub open spec fn is_sound_up_to(&self, n: nat) -> bool {
        if self.length_fault() is Some {
            n == 0
        } else {
            &&& n < self.rows()
            &&& side_of(self.side@[n as int] as int) is None
            &&& forall|i: int| 0 <= i < n ==> side_of((#[trigger] self.side@[i]) as int) is Some
        }
    }

    fn check_lengths(&self) -> (r: Option<IngestError>)
        ensures
            r == self.length_fault(),
    {
        let n: usize = self.ts_exchange.len();
        if self.price.len() != n || self.qty.len() != n || self.side.len() != n {
            return Some(IngestError::ColumnLengthsMismatch);
        }
        if let Some(v) = &self.seq {
            if v.len() != n {
                return Some(IngestError::SeqLengthMismatch);
            }
        }
        if let Some(v) = &self.ts_local {
            if v.len() != n {
                return Some(IngestError::TsLocalLengthMismatch);
            }
        }
        None
    }

    /// Appends the events of the table to a list.
    pub fn append_events(
        &self,
        symbol_id: u32,
        feed_latency_ns: i64,
        events: &mut Vec<(i64, EventKind)>,
    ) -> (r: Result<(), IngestError>)
        ensures
            match self.outcome(symbol_id, feed_latency_ns) {
                Ok(new) => r is Ok && final(events)@ == old(events)@ + new,
                Err(e) => {
                    &&& r == Err::<(), IngestError>(e)
                    &&& exists|n: nat| #[trigger]
                        self.is_sound_up_to(n) && final(events)@ == old(events)@ + self.events(
                            symbol_id,
                            feed_latency_ns,
                            n,
                        ).unwrap()
                },
            },
            r is Ok ==> final(events)@.len() == old(events)@.len() + 2 * self.ts_exchange@.len(),
            r is Ok ==> forall|i: int|
                0 <= i < self.ts_exchange@.len() ==> #[trigger] is_row_at(
                    final(events)@,
                    old(events)@.len() + 2 * i,
                    *self,
                    symbol_id,
                    feed_latency_ns,
                    i,
                ),
    {
        if let Some(e) = self.check_lengths() {
            proof {
                assert(self.is_sound_up_to(0));
                assert(events@ =~= old(events)@ + Seq::<(i64, EventKind)>::empty());
            }
            return Err(e);
        }
        let n: usize = self.ts_exchange.len();
        let mut i: usize = 0;
        assert(events@ =~= old(events)@ + Seq::<(i64, EventKind)>::empty());
        while i < n
            invariant
                i <= n == self.rows(),
                self.length_fault() is None,
                self.events(symbol_id, feed_latency_ns, i as nat) is Ok,
                events@ == old(events)@ + self.events(symbol_id, feed_latency_ns, i as nat).unwrap(),
                forall|k: int| 0 <= k < i ==> side_of((#[trigger] self.side@[k]) as int) is Some,
            decreases n - i,
        {
            let ghost so_far = self.events(symbol_id, feed_latency_ns, i as nat).unwrap();
            let code: i8 = self.side[i];
            let side: Side = match Side::try_from(code) {
                Ok(side) => side,
                Err(_) => {
                    proof {
                        let e = IngestError::InvalidSide { value: code };
                        assert(self.events(symbol_id, feed_latency_ns, (i + 1) as nat) == Err::<
                            Seq<(i64, EventKind)>,
                            IngestError,
                        >(e));
                        lemma_error_stays(
                            self,
                            symbol_id,
                            feed_latency_ns,
                            (i + 1) as nat,
                            n as nat,
                            e,
                        );
                        assert(self.is_sound_up_to(i as nat));
                    }
                    return Err(IngestError::InvalidSide { value: code });
                },
            };
            let ts_exchange: i64 = self.ts_exchange[i];
            let ts_local: i64 = match &self.ts_local {
                Some(v) => v[i],
                None => sat_add(ts_exchange, feed_latency_ns),
            };
            let seq: u64 = match &self.seq {
                Some(v) => v[i],
                None => i as u64,
            };
            let truth = Tick {
                ts_exchange,
                ts_local: ts_exchange,
                seq,
                symbol_id,
                price: self.price[i],
                qty: self.qty[i],
                side,
                flags: 0x01,  // trade-only
            };
            let mut delivered: Tick = truth;
            delivered.ts_local = ts_local;
            events.push((ts_exchange, EventKind::Tick(truth)));
            events.push((ts_local, EventKind::TickDelivery(delivered)));
            proof {
                let new = self.row_events(symbol_id, feed_latency_ns, i as int);
                assert(truth == self.truth(symbol_id, i as int));
                assert(new =~= seq![
                    (ts_exchange, EventKind::Tick(truth)),
                    (ts_local, EventKind::TickDelivery(delivered)),
                ]);
                assert(self.events(symbol_id, feed_latency_ns, (i + 1) as nat) == Ok::<
                    Seq<(i64, EventKind)>,
                    IngestError,
                >(so_far + new));
                assert(events@ =~= old(events)@ + (so_far + new));
            }
            i = i + 1;
        }
        proof {
            let new = self.events(symbol_id, feed_latency_ns, n as nat).unwrap();
            lemma_row_events(*self, symbol_id, feed_latency_ns, n as nat, 0);
            assert forall|i: int| 0 <= i < n implies #[trigger] is_row_at(
                events@,
                old(events)@.len() + 2 * i,
                *self,
                symbol_id,
                feed_latency_ns,
                i,
            ) by {
                lemma_row_events(*self, symbol_id, feed_latency_ns, n as nat, i);
                assert(events@[old(events)@.len() + 2 * i] == new[2 * i]);
                assert(events@[old(events)@.len() + 2 * i + 1] == new[2 * i + 1]);
            }
        }
        Ok(())
    }
}

proof fn lemma_error_stays(
    table: &SymbolTable,
    symbol_id: u32,
    feed_latency_ns: i64,
    k: nat,
    n: nat,
    e: IngestError,
)
    requires
        k <= n,
        table.events(symbol_id, feed_latency_ns, k) == Err::<Seq<(i64, EventKind)>, IngestError>(e),
    ensures
        table.events(symbol_id, feed_latency_ns, n) == Err::<Seq<(i64, EventKind)>, IngestError>(e),
    decreases n - k,
{
    if k < n {
        lemma_error_stays(table, symbol_id, feed_latency_ns, k, (n - 1) as nat, e);
    }
}

/// Whether a list of indices puts symbols into dictionary order.
pub open spec fn is_symbol_order(symbols: Seq<Seq<char>>, order: Seq<usize>) -> bool {
    &&& order.len() == symbols.len()
    &&& order.no_duplicates()
    &&& forall|i: int| 0 <= i < order.len() ==> (#[trigger] order[i]) < symbols.len()
    &&& forall|i: int, j: int|
        0 <= i < j < order.len() ==> text_le(
            #[trigger] symbols[order[i] as int],
            #[trigger] symbols[order[j] as int],
        )
}

/// The texts of a list of strings.
pub open spec fn texts(symbols: Seq<String>) -> Seq<Seq<char>> {
    Seq::new(symbols.len(), |i: int| symbols[i]@)
}

/// The symbols of a list of tables.
pub open spec fn symbols_of(tables: Seq<SymbolTable>) -> Seq<Seq<char>> {
    Seq::new(tables.len(), |i: int| tables[i].symbol@)
}

/// The indices of symbols in dictionary order. The position of a symbol, counted from 1,
/// is its symbol id: it does not depend on the order in which the symbols come.
pub fn symbol_order(symbols: &Vec<String>) -> (r: Vec<usize>)
    ensures
        is_symbol_order(texts(symbols@), r@),
{
    let ghost names = texts(symbols@);
    let mut order: Vec<usize> = Vec::new();
    let mut i: usize = 0;
    while i < symbols.len()
        invariant
            i <= symbols@.len(),
            names == texts(symbols@),
            order@.len() == i,
            order@.no_duplicates(),
            forall|k: int| 0 <= k < order@.len() ==> (#[trigger] order@[k]) < i,
            forall|j: int, k: int|
                0 <= j < k < order@.len() ==> text_le(
                    #[trigger] names[order@[j] as int],
                    #[trigger] names[order@[k] as int],
                ),
        decreases symbols@.len() - i,
    {
        // Behind the last one that comes no later.
        let ghost name = names[i as int];
        let mut at: usize = order.len();
        while at > 0 && !comes_no_later(
            symbols[order[at - 1]].as_str(),
            symbols[i].as_str(),
        )
            invariant
                at <= order@.len(),
                i < symbols@.len(),
                names == texts(symbols@),
                name == names[i as int],
                forall|k: int| 0 <= k < order@.len() ==> (#[trigger] order@[k]) < i,
                forall|k: int|
                    at <= k < order@.len() ==> !text_le(
                        #[trigger] names[order@[k] as int],
                        name,
                    ),
            decreases at,
        {
            at = at - 1;
        }
        let ghost before = order@;
        order.insert(at, i);
        proof {
            let after = order@;
            assert(after =~= before.insert(at as int, i));
            assert forall|k: int| 0 <= k < after.len() implies (#[trigger] after[k]) < i + 1 by {
                if k < at {
                    assert(after[k] == before[k]);
                } else if k > at {
                    assert(after[k] == before[k - 1]);
                }
            }
            assert forall|j: int, k: int|
                0 <= j < after.len() && 0 <= k < after.len() && j != k implies after[j]
                != after[k] by {
                let j0 = if j < at {
                    j
                } else {
                    j - 1
                };
                let k0 = if k < at {
                    k
                } else {
                    k - 1
                };
                if j != at && k != at {
                    assert(before[j0] != before[k0]);
                } else if j == at {
                    assert(before[k0] < i);
                } else {
                    assert(before[j0] < i);
                }
            }
            assert forall|j: int, k: int| 0 <= j < k < after.len() implies text_le(
                #[trigger] names[after[j] as int],
                #[trigger] names[after[k] as int],
            ) by {
                if k < at {
                    assert(text_le(
                        names[before[j] as int],
                        names[before[k] as int],
                    ));
                } else if k == at {
                    let last = names[before[at - 1] as int];
                    assert(text_le(last, name));
                    if j < at - 1 {
                        assert(text_le(
                            names[before[j] as int],
                            names[before[at - 1] as int],
                        ));
                        lemma_text_order_transitive(
                            names[before[j] as int],
                            last,
                            name,
                        );
                    }
                } else if j == at {
                    let later = names[before[k - 1] as int];
                    assert(!text_le(later, name));
                    lemma_text_order(later, name);
                } else if j < at {
                    assert(text_le(
                        names[before[j] as int],
                        names[before[k - 1] as int],
                    ));
                } else {
                    assert(text_le(
                        names[before[j - 1] as int],
                        names[before[k - 1] as int],
                    ));
                }
            }
        }
        i = i + 1;
    }
    order
}

/// The events of the tables, one table after the other in the given order; the first
/// table that is refused decides the error.
pub open spec fn all_events(
    tables: Seq<SymbolTable>,
    order: Seq<usize>,
    feed_latency_ns: i64,
    n: nat,
) -> Result<Seq<(i64, EventKind)>, IngestError>
    decreases n,
{
    if n == 0 {
        Ok(Seq::empty())
    } else {
        match all_events(tables, order, feed_latency_ns, (n - 1) as nat) {
            Err(e) => Err(e),
            Ok(before) => match tables[order[n - 1] as int].outcome(n as u32, feed_latency_ns) {
                Err(e) => Err(e),
                Ok(new) => Ok(before + new),
            },
        }
    }
}

/// The events of a list at one time.
pub open spec fn events_at(events: Seq<(i64, EventKind)>, ts: i64) -> Seq<(i64, EventKind)> {
    events.filter(|e: (i64, EventKind)| e.0 == ts)
}

/// Whether one list is another, sorted by time, where events of the same time keep their
/// order.
pub open spec fn is_sorted_by_time(
    before: Seq<(i64, EventKind)>,
    after: Seq<(i64, EventKind)>,
) -> bool {
    &&& after.len() == before.len()
    &&& forall|i: int, j: int|
        0 <= i < j < after.len() ==> (#[trigger] after[i]).0 <= (#[trigger] after[j]).0
    &&& forall|ts: i64| #[trigger] events_at(after, ts) == events_at(before, ts)
}

/// `slice::sort_by_key` by the time of the events: a stable sort.
#[verifier::external_body]
fn sort_by_time(events: &mut Vec<(i64, EventKind)>)
    ensures
        is_sorted_by_time(old(events)@, final(events)@),
{
    events.sort_by_key(|e| e.0);
}

/// The events of all tables, sorted by time. Symbols are numbered from 1 in dictionary
/// order, so that the result does not depend on the order of the tables.
pub fn events_from_tables(tables: &Vec<SymbolTable>, feed_latency_ns: i64) -> (r: Result<
    Vec<(i64, EventKind)>,
    IngestError,
>)
    requires
        tables@.len() < u32::MAX,
    ensures
        exists|order: Seq<usize>| #[trigger]
            is_symbol_order(symbols_of(tables@), order) && match all_events(
                tables@,
                order,
                feed_latency_ns,
                tables@.len(),
            ) {
                Ok(events) => r matches Ok(sorted) && is_sorted_by_time(events, sorted@),
                Err(e) => r == Err::<Vec<(i64, EventKind)>, IngestError>(e),
            },
        r matches Ok(sorted) ==> exists|order: Seq<usize>| #[trigger]
            is_symbol_order(symbols_of(tables@), order) && sorted@.len() == 2 * rows_in(
                tables@,
                order,
                tables@.len(),
            ) && forall|k: int, i: int|
                0 <= k < tables@.len() && 0 <= i < tables@[order[k] as int].ts_exchange@.len()
                    ==> #[trigger] holds_row(
                    sorted@,
                    tables@[order[k] as int],
                    (k + 1) as u32,
                    feed_latency_ns,
                    i,
                ),
{
    let n: usize = tables.len();
    let mut symbols: Vec<String> = Vec::new();
    while symbols.len() < n
        invariant
            symbols@.len() <= n == tables@.len(),
            forall|k: int|
                0 <= k < symbols@.len() ==> (#[trigger] symbols@[k])@ == tables@[k].symbol@,
        decreases n - symbols@.len(),
    {
        let k: usize = symbols.len();
        symbols.push(tables[k].symbol.clone());
    }
    assert(texts(symbols@) =~= symbols_of(tables@));
    let order: Vec<usize> = symbol_order(&symbols);
    let mut events: Vec<(i64, EventKind)> = Vec::new();
    let mut i: usize = 0;
    while i < n
        invariant
            i <= n == tables@.len(),
            n < u32::MAX,
            is_symbol_order(symbols_of(tables@), order@),
            all_events(tables@, order@, feed_latency_ns, i as nat) == Ok::<
                Seq<(i64, EventKind)>,
                IngestError,
            >(events@),
        decreases n - i,
    {
        let symbol_id: u32 = (i + 1) as u32;
        let ghost so_far = events@;
        match tables[order[i]].append_events(symbol_id, feed_latency_ns, &mut events) {
            Ok(()) => {},
            Err(e) => {
                proof {
                    assert(all_events(tables@, order@, feed_latency_ns, (i + 1) as nat) == Err::<
                        Seq<(i64, EventKind)>,
                        IngestError,
                    >(e));
                    lemma_table_error_stays(
                        tables@,
                        order@,
                        feed_latency_ns,
                        (i + 1) as nat,
                        n as nat,
                        e,
                    );
                }
                return Err(e);
            },
        }
        assert(all_events(tables@, order@, feed_latency_ns, (i + 1) as nat) == Ok::<
            Seq<(i64, EventKind)>,
            IngestError,
        >(events@));
        i = i + 1;
    }
    let ghost unsorted = events@;
    sort_by_time(&mut events);
    proof {
        law_tables_become_events(tables@, order@, feed_latency_ns, n as nat, 0, 0);
        assert forall|k: int, i: int|
            0 <= k < n && 0 <= i < tables@[order@[k] as int].ts_exchange@.len() implies #[trigger]
            holds_row(
            events@,
            tables@[order@[k] as int],
            (k + 1) as u32,
            feed_latency_ns,
            i,
        ) by {
            law_tables_become_events(tables@, order@, feed_latency_ns, n as nat, k, i);
            lemma_sorted_holds_row(
                unsorted,
                events@,
                tables@[order@[k] as int],
                (k + 1) as u32,
                feed_latency_ns,
                i,
            );
        }
    }
    Ok(events)
}

proof fn lemma_table_error_stays(
    tables: Seq<SymbolTable>,
    order: Seq<usize>,
    feed_latency_ns: i64,
    k: nat,
    n: nat,
    e: IngestError,
)
    requires
        k <= n,
        all_events(tables, order, feed_latency_ns, k) == Err::<
            Seq<(i64, EventKind)>,
            IngestError,
        >(e),
    ensures
        all_events(tables, order, feed_latency_ns, n) == Err::<
            Seq<(i64, EventKind)>,
            IngestError,
        >(e),
    decreases n - k,
{
    if k < n {
        lemma_table_error_stays(tables, order, feed_latency_ns, k, (n - 1) as nat, e);
    }
}

/// The columns of one symbol that a checksum is made of.
#[derive(Debug, Clone)]
pub struct ChecksumTable {
    pub ts_exchange: Vec<i64>,
    pub price: Vec<i64>,
    pub qty: Vec<i64>,
    pub side: Vec<i64>,
    pub seq: Option<Vec<i64>>,
}

impl ChecksumTable {
    /// What is wrong with the lengths of the columns.
    pub open spec fn length_fault(&self) -> Option<IngestError> {
        let n = self.ts_exchange@.len();
        if self.price@.len() != n || self.qty@.len() != n || self.side@.len() != n {
            Some(IngestError::ColumnLengthsMismatch)
        } else if self.seq matches Some(v) && v@.len() != n {
            Some(IngestError::SeqLengthMismatch)
        } else {
            None
        }
    }

    /// The sum of all cells of the first `n` rows.
    pub open spec fn total(&self, n: nat) -> int
        decreases n,
    {
        if n == 0 {
            0
        } else {
            let i = n - 1;
            self.total(i as nat) + self.ts_exchange@[i] + self.price@[i] + self.qty@[i]
                + self.side@[i] + match self.seq {
                Some(v) => v@[i] as int,
                None => 0,
            }
        }
    }
}

/// The `i64` that is congruent to `x` modulo 2^64.
pub open spec fn wrap_i64(x: int) -> i64 {
    let m = x % 0x1_0000_0000_0000_0000;
    if m >= 0x8000_0000_0000_0000 {
        (m - 0x1_0000_0000_0000_0000) as i64
    } else {
        m as i64
    }
}

/// The sum of all cells of the first `n` tables.
pub open spec fn tables_total(tables: Seq<ChecksumTable>, n: nat) -> int
    decreases n,
{
    if n == 0 {
        0
    } else {
        tables_total(tables, (n - 1) as nat) + tables[n - 1].total(
            tables[n - 1].ts_exchange@.len(),
        )
    }
}

/// The first fault among the first `n` tables.
pub open spec fn first_fault(tables: Seq<ChecksumTable>, n: nat) -> Option<IngestError>
    decreases n,
{
    if n == 0 {
        None
    } else {
        match first_fault(tables, (n - 1) as nat) {
            Some(e) => Some(e),
            None => tables[n - 1].length_fault(),
        }
    }
}

/// The one number of the range that differs from another by a multiple of 2^64.
proof fn lemma_wraps_to(x: int, r: i64, q: int)
    requires
        x == r + q * 0x1_0000_0000_0000_0000,
    ensures
        wrap_i64(x) == r,
{
    let m = x % 0x1_0000_0000_0000_0000;
    if r >= 0 {
        assert(m == r);
    } else {
        assert(m == r + 0x1_0000_0000_0000_0000);
    }
}

#[verifier::spinoff_prover]
fn wrapped_sum(a: i64, b: i64, Ghost(sum): Ghost<int>) -> (r: i64)
    requires
        a == wrap_i64(sum),
    ensures
        r == wrap_i64(sum + b),
{
    let r: i64 = a.wrapping_add(b);
    proof {
        let m = sum % 0x1_0000_0000_0000_0000;
        let k = sum / 0x1_0000_0000_0000_0000;
        assert(sum == k * 0x1_0000_0000_0000_0000 + m);
        let q = if m >= 0x8000_0000_0000_0000 {
            k + 1
        } else {
            k
        };
        assert(sum == a + q * 0x1_0000_0000_0000_0000);
        let j = if a + b > i64::MAX {
            1int
        } else if a + b < i64::MIN {
            -1int
        } else {
            0int
        };
        assert(r == a + b - j * 0x1_0000_0000_0000_0000);
        lemma_wraps_to(sum + b, r, q + j);
    }
    r
}

/// The sum of all cells of all tables, modulo 2^64.
pub fn checksum_of_tables(tables: &Vec<ChecksumTable>) -> (r: Result<i64, IngestError>)
    ensures
        r == match first_fault(tables@, tables@.len()) {
            Some(e) => Err::<i64, IngestError>(e),
            None => Ok(wrap_i64(tables_total(tables@, tables@.len()))),
        },
{
    let mut checksum: i64 = 0;
    let mut t: usize = 0;
    while t < tables.len()
        invariant
            t <= tables@.len(),
            first_fault(tables@, t as nat) is None,
            checksum == wrap_i64(tables_total(tables@, t as nat)),
        decreases tables@.len() - t,
    {
        let table: &ChecksumTable = &tables[t];
        let n: usize = table.ts_exchange.len();
        let mut fault: Option<IngestError> = None;
        if table.price.len() != n || table.qty.len() != n || table.side.len() != n {
            fault = Some(IngestError::ColumnLengthsMismatch);
        } else if let Some(v) = &table.seq {
            if v.len() != n {
                fault = Some(IngestError::SeqLengthMismatch);
            }
        }
        if let Some(e) = fault {
            proof {
                assert(first_fault(tables@, (t + 1) as nat) == Some(e));
                lemma_first_fault_stays(tables@, (t + 1) as nat, tables@.len(), e);
            }
            return Err(e);
        }
        let ghost before = tables_total(tables@, t as nat);
        let mut i: usize = 0;
        while i < n
            invariant
                i <= n == table.ts_exchange@.len(),
                table.length_fault() is None,
                checksum == wrap_i64(before + table.total(i as nat)),
            decreases n - i,
        {
            let ghost s0 = before + table.total(i as nat);
            let ghost s1 = s0 + table.ts_exchange@[i as int];
            let ghost s2 = s1 + table.price@[i as int];
            let ghost s3 = s2 + table.qty@[i as int];
            let ghost s4 = s3 + table.side@[i as int];
            checksum = wrapped_sum(checksum, table.ts_exchange[i], Ghost(s0));
            checksum = wrapped_sum(checksum, table.price[i], Ghost(s1));
            checksum = wrapped_sum(checksum, table.qty[i], Ghost(s2));
            checksum = wrapped_sum(checksum, table.side[i], Ghost(s3));
            if let Some(v) = &table.seq {
                checksum = wrapped_sum(checksum, v[i], Ghost(s4));
            }
            i = i + 1;
        }
        t = t + 1;
    }
    Ok(checksum)
}

proof fn lemma_first_fault_stays(tables: Seq<ChecksumTable>, k: nat, n: nat, e: IngestError)
    requires
        k <= n,
        first_fault(tables, k) == Some(e),
    ensures
        first_fault(tables, n) == Some(e),
    decreases n - k,
{
    if k < n {
        lemma_first_fault_stays(tables, k, (n - 1) as nat, e);
    }
}

/// Where the symbols differ, there is one symbol order: it does not depend on how it is
/// found.
pub proof fn law_symbol_ids_are_determined(
    symbols: Seq<Seq<char>>,
    a: Seq<usize>,
    b: Seq<usize>,
)
    requires
        is_symbol_order(symbols, a),
        is_symbol_order(symbols, b),
        forall|i: int, j: int|
            0 <= i < symbols.len() && 0 <= j < symbols.len() && i != j ==> (
            #[trigger] symbols[i]) != (#[trigger] symbols[j]),
    ensures
        a == b,
{
    assert forall|k: int| 0 <= k < a.len() implies a[k] == b[k] by {
        lemma_order_agrees(symbols, a, b, k);
    }
    assert(a =~= b);
}

/// Where the symbols differ, the symbol with an identifier does not depend on the order in
/// which the symbols come: `b` lists the symbols of `a` as `shuffle` says.
pub proof fn law_symbol_ids_ignore_input_order(
    a: Seq<Seq<char>>,
    b: Seq<Seq<char>>,
    shuffle: Seq<usize>,
    order_a: Seq<usize>,
    order_b: Seq<usize>,
    k: int,
)
    requires
        shuffle.len() == a.len(),
        b.len() == a.len(),
        shuffle.no_duplicates(),
        forall|i: int|
            0 <= i < b.len() ==> (#[trigger] shuffle[i]) < a.len() && b[i] == a[shuffle[i] as int],
        forall|i: int, j: int|
            0 <= i < a.len() && 0 <= j < a.len() && i != j ==> (#[trigger] a[i]) != (
            #[trigger] a[j]),
        is_symbol_order(a, order_a),
        is_symbol_order(b, order_b),
        0 <= k < a.len(),
    ensures
        a[order_a[k] as int] == b[order_b[k] as int],
{
    let through = Seq::new(order_b.len(), |i: int| shuffle[order_b[i] as int]);
    assert(is_symbol_order(a, through)) by {
        assert forall|i: int| 0 <= i < through.len() implies (#[trigger] through[i]) < a.len() by {
            assert(order_b[i] < b.len());
        }
        assert forall|i: int, j: int|
            0 <= i < through.len() && 0 <= j < through.len() && i != j implies through[i]
            != through[j] by {
            assert(order_b[i] != order_b[j]);
            assert(order_b[i] < b.len() && order_b[j] < b.len());
            assert(shuffle[order_b[i] as int] != shuffle[order_b[j] as int]);
        }
        assert forall|i: int, j: int| 0 <= i < j < through.len() implies text_le(
            #[trigger] a[through[i] as int],
            #[trigger] a[through[j] as int],
        ) by {
            assert(order_b[i] < b.len() && order_b[j] < b.len());
            assert(b[order_b[i] as int] == a[shuffle[order_b[i] as int] as int]);
            assert(b[order_b[j] as int] == a[shuffle[order_b[j] as int] as int]);
            assert(text_le(b[order_b[i] as int], b[order_b[j] as int]));
        }
    }
    law_symbol_ids_are_determined(a, order_a, through);
    assert(order_b[k] < b.len());
    assert(b[order_b[k] as int] == a[shuffle[order_b[k] as int] as int]);
}

/// Every index below `n` occurs in a list of `n` different indices below `n`.
proof fn lemma_covers(order: Seq<usize>, n: nat, x: usize)
    requires
        order.len() == n,
        order.no_duplicates(),
        forall|i: int| 0 <= i < order.len() ==> (#[trigger] order[i]) < n,
        x < n,
    ensures
        order.contains(x),
{
    if !order.contains(x) {
        order.unique_seq_to_set();
        let all = vstd::set_lib::set_int_range(0, n as int);
        let used = order.to_set().map(|i: usize| i as int);
        vstd::set_lib::lemma_int_range(0, n as int);
        assert(order.to_set().len() == n);
        lemma_image_size(order);
        assert(used.subset_of(all.remove(x as int))) by {
            assert forall|y: int| used.contains(y) implies all.remove(x as int).contains(y) by {
                let i = choose|i: usize| order.to_set().contains(i) && i as int == y;
                assert(order.contains(i));
                let k = choose|k: int| 0 <= k < order.len() && order[k] == i;
                assert(order[k] < n);
            }
        }
        vstd::set_lib::lemma_len_subset(used, all.remove(x as int));
    }
}

proof fn lemma_image_size(order: Seq<usize>)
    requires
        order.no_duplicates(),
    ensures
        order.to_set().map(|i: usize| i as int).len() == order.len(),
        order.to_set().map(|i: usize| i as int).finite(),
    decreases order.len(),
{
    let image = order.to_set().map(|i: usize| i as int);
    if order.len() == 0 {
        assert(image =~= Set::empty());
    } else {
        let front = order.drop_last();
        assert(front.no_duplicates()) by {
            assert forall|i: int, j: int|
                0 <= i < front.len() && 0 <= j < front.len() && i != j implies front[i]
                != front[j] by {
                assert(order[i] != order[j]);
            }
        }
        lemma_image_size(front);
        let before = front.to_set().map(|i: usize| i as int);
        let last = order.last() as int;
        assert(!before.contains(last)) by {
            if before.contains(last) {
                let i = choose|i: usize| front.to_set().contains(i) && i as int == last;
                assert(front.contains(i));
                let k = choose|k: int| 0 <= k < front.len() && front[k] == i;
                assert(order[k] != order[order.len() - 1]);
            }
        }
        assert(image =~= before.insert(last)) by {
            assert forall|y: int| image.contains(y) <==> before.insert(last).contains(y) by {
                if image.contains(y) {
                    let i = choose|i: usize| order.to_set().contains(i) && i as int == y;
                    assert(order.contains(i));
                    let k = choose|k: int| 0 <= k < order.len() && order[k] == i;
                    if k < front.len() {
                        assert(front[k] == i);
                        assert(front.to_set().contains(i));
                        assert(before.contains(y));
                    }
                }
                if before.contains(y) {
                    let i = choose|i: usize| front.to_set().contains(i) && i as int == y;
                    assert(front.contains(i));
                    let k = choose|k: int| 0 <= k < front.len() && front[k] == i;
                    assert(order[k] == i);
                    assert(order.to_set().contains(i));
                }
                if y == last {
                    assert(order[order.len() - 1] == order.last());
                    assert(order.to_set().contains(order.last()));
                }
            }
        }
    }
}

proof fn lemma_order_agrees(symbols: Seq<Seq<char>>, a: Seq<usize>, b: Seq<usize>, k: int)
    requires
        is_symbol_order(symbols, a),
        is_symbol_order(symbols, b),
        forall|i: int, j: int|
            0 <= i < symbols.len() && 0 <= j < symbols.len() && i != j ==> (
            #[trigger] symbols[i]) != (#[trigger] symbols[j]),
        0 <= k < a.len(),
    ensures
        a[k] == b[k],
    decreases k,
{
    assert forall|i: int| 0 <= i < k implies a[i] == b[i] by {
        lemma_order_agrees(symbols, a, b, i);
    }
    if a[k] != b[k] {
        lemma_covers(b, symbols.len(), a[k]);
        lemma_covers(a, symbols.len(), b[k]);
        let p = choose|p: int| 0 <= p < b.len() && b[p] == a[k];
        let q = choose|q: int| 0 <= q < a.len() && a[q] == b[k];
        assert(p > k) by {
            if p < k {
                assert(a[p] == b[p]);
                assert(a[p] != a[k]);
            }
        }
        assert(q > k) by {
            if q < k {
                assert(a[q] == b[q]);
                assert(b[q] != b[k]);
            }
        }
        let x = symbols[a[k] as int];
        let y = symbols[b[k] as int];
        assert(text_le(symbols[b[k] as int], symbols[b[p] as int]));
        assert(text_le(symbols[a[k] as int], symbols[a[q] as int]));
        lemma_text_order(x, y);
    }
}

/// Whether a tick carries the entries of a row: price, quantity, time of the exchange and
/// sequence number as they stand in their columns (the number of the row where there is no
/// column of sequence numbers), and the side that the code 1, -1 or 0 stands for.
pub open spec fn carries_row(tick: Tick, table: SymbolTable, symbol_id: u32, i: int) -> bool {
    &&& tick.price == table.price@[i]
    &&& tick.qty == table.qty@[i]
    &&& tick.ts_exchange == table.ts_exchange@[i]
    &&& tick.symbol_id == symbol_id
    &&& tick.side is Buy <==> table.side@[i] == 1
    &&& tick.side is Sell <==> table.side@[i] == -1
    &&& tick.side is NoSide <==> table.side@[i] == 0
    &&& table.seq matches Some(seq) ==> tick.seq == seq@[i]
    &&& table.seq is None && i <= u64::MAX ==> tick.seq == i
    &&& tick.flags == 1
}

/// Whether an event is the trade of a row at the exchange, at its time there.
pub open spec fn is_trade_of(
    e: (i64, EventKind),
    table: SymbolTable,
    symbol_id: u32,
    i: int,
) -> bool {
    &&& e.0 == table.ts_exchange@[i]
    &&& e.1 matches EventKind::Tick(tick) && carries_row(tick, table, symbol_id, i)
        && tick.ts_local == table.ts_exchange@[i]
}

/// Whether an event is the delivery of the trade of a row to the strategy: at the local time
/// of the row, or after the latency of the feed where the table has none.
pub open spec fn is_delivery_of(
    e: (i64, EventKind),
    table: SymbolTable,
    symbol_id: u32,
    feed_latency_ns: i64,
    i: int,
) -> bool {
    &&& e.1 matches EventKind::TickDelivery(tick) && carries_row(tick, table, symbol_id, i)
        && tick.ts_local == e.0
    &&& table.ts_local matches Some(ts_local) ==> e.0 == ts_local@[i]
    &&& table.ts_local is None && i64::MIN <= table.ts_exchange@[i] + feed_latency_ns <= i64::MAX
        ==> e.0 == table.ts_exchange@[i] + feed_latency_ns
    &&& table.ts_local is None && table.ts_exchange@[i] + feed_latency_ns > i64::MAX ==> e.0
        == i64::MAX
    &&& table.ts_local is None && table.ts_exchange@[i] + feed_latency_ns < i64::MIN ==> e.0
        == i64::MIN
}

/// Whether trade and delivery of a row stand at this place of a list, one after the other.
pub open spec fn is_row_at(
    events: Seq<(i64, EventKind)>,
    at: int,
    table: SymbolTable,
    symbol_id: u32,
    feed_latency_ns: i64,
    i: int,
) -> bool {
    &&& 0 <= at
    &&& at + 1 < events.len()
    &&& is_trade_of(events[at], table, symbol_id, i)
    &&& is_delivery_of(events[at + 1], table, symbol_id, feed_latency_ns, i)
}

/// Whether trade and delivery of a row are in a list.
pub open spec fn holds_row(
    events: Seq<(i64, EventKind)>,
    table: SymbolTable,
    symbol_id: u32,
    feed_latency_ns: i64,
    i: int,
) -> bool {
    &&& exists|p: int|
        0 <= p < events.len() && is_trade_of(#[trigger] events[p], table, symbol_id, i)
    &&& exists|p: int|
        0 <= p < events.len() && is_delivery_of(
            #[trigger] events[p],
            table,
            symbol_id,
            feed_latency_ns,
            i,
        )
}

/// A table is taken in exactly where its columns are of one length and every side is one of
/// 1, -1 and 0.
pub proof fn law_sound_tables_are_taken_in(
    table: SymbolTable,
    symbol_id: u32,
    feed_latency_ns: i64,
)
    ensures
        table.outcome(symbol_id, feed_latency_ns) is Ok <==> {
            let n = table.ts_exchange@.len();
            &&& table.price@.len() == n
            &&& table.qty@.len() == n
            &&& table.side@.len() == n
            &&& table.seq matches Some(v) ==> v@.len() == n
            &&& table.ts_local matches Some(v) ==> v@.len() == n
            &&& forall|i: int|
                0 <= i < n ==> -1 <= (#[trigger] table.side@[i]) <= 1
        },
{
    lemma_known_sides(table, symbol_id, feed_latency_ns, table.rows());
}

proof fn lemma_known_sides(table: SymbolTable, symbol_id: u32, feed_latency_ns: i64, n: nat)
    ensures
        table.events(symbol_id, feed_latency_ns, n) is Ok <==> forall|i: int|
            0 <= i < n ==> -1 <= (#[trigger] table.side@[i]) <= 1,
    decreases n,
{
    if n > 0 {
        lemma_known_sides(table, symbol_id, feed_latency_ns, (n - 1) as nat);
        let last = table.side@[n - 1];
        assert(side_of(last as int) is Some <==> -1 <= last <= 1);
    }
}

/// Every row of a table becomes two events in the order of the rows: the trade at the
/// exchange and its delivery, with the entries of its columns; there are no others.
pub proof fn law_rows_become_events(
    table: SymbolTable,
    symbol_id: u32,
    feed_latency_ns: i64,
    i: int,
)
    requires
        table.outcome(symbol_id, feed_latency_ns) is Ok,
        0 <= i < table.ts_exchange@.len(),
    ensures
        ({
            let events = table.outcome(symbol_id, feed_latency_ns).unwrap();
            &&& events.len() == 2 * table.ts_exchange@.len()
            &&& is_row_at(events, 2 * i, table, symbol_id, feed_latency_ns, i)
        }),
{
    lemma_row_events(table, symbol_id, feed_latency_ns, table.rows(), i);
}

proof fn lemma_row_events(
    table: SymbolTable,
    symbol_id: u32,
    feed_latency_ns: i64,
    n: nat,
    i: int,
)
    requires
        table.events(symbol_id, feed_latency_ns, n) is Ok,
    ensures
        table.events(symbol_id, feed_latency_ns, n).unwrap().len() == 2 * n,
        0 <= i < n ==> is_row_at(
            table.events(symbol_id, feed_latency_ns, n).unwrap(),
            2 * i,
            table,
            symbol_id,
            feed_latency_ns,
            i,
        ),
    decreases n,
{
    if n > 0 {
        let m = (n - 1) as nat;
        lemma_row_events(table, symbol_id, feed_latency_ns, m, i);
        let before = table.events(symbol_id, feed_latency_ns, m).unwrap();
        let new = table.row_events(symbol_id, feed_latency_ns, n - 1);
        let all = table.events(symbol_id, feed_latency_ns, n).unwrap();
        assert(all == before + new);
        assert(new.len() == 2);
        if i == n - 1 {
            assert(all[2 * i] == new[0]);
            assert(all[2 * i + 1] == new[1]);
        } else if 0 <= i < n - 1 {
            assert(all[2 * i] == before[2 * i]);
            assert(all[2 * i + 1] == before[2 * i + 1]);
        }
    }
}

/// How many rows the first `n` tables of an order have.
pub open spec fn rows_in(tables: Seq<SymbolTable>, order: Seq<usize>, n: nat) -> nat
    decreases n,
{
    if n == 0 {
        0
    } else {
        rows_in(tables, order, (n - 1) as nat) + tables[order[n - 1] as int].ts_exchange@.len()
    }
}

/// The events of the tables are those of their rows: the table that comes `k`-th in
/// dictionary order has the symbol number `k`, counted from 1, and each of its rows is there
/// with trade and delivery; there are no others.
pub proof fn law_tables_become_events(
    tables: Seq<SymbolTable>,
    order: Seq<usize>,
    feed_latency_ns: i64,
    n: nat,
    k: int,
    i: int,
)
    requires
        all_events(tables, order, feed_latency_ns, n) is Ok,
        n < u32::MAX,
    ensures
        all_events(tables, order, feed_latency_ns, n).unwrap().len() == 2 * rows_in(
            tables,
            order,
            n,
        ),
        0 <= k < n && 0 <= i < tables[order[k] as int].ts_exchange@.len() ==> holds_row(
            all_events(tables, order, feed_latency_ns, n).unwrap(),
            tables[order[k] as int],
            (k + 1) as u32,
            feed_latency_ns,
            i,
        ),
    decreases n,
{
    if n > 0 {
        let m = (n - 1) as nat;
        law_tables_become_events(tables, order, feed_latency_ns, m, k, i);
        let table = tables[order[n - 1] as int];
        let before = all_events(tables, order, feed_latency_ns, m).unwrap();
        let new = table.outcome(n as u32, feed_latency_ns).unwrap();
        let all = all_events(tables, order, feed_latency_ns, n).unwrap();
        assert(all == before + new);
        lemma_row_events(table, n as u32, feed_latency_ns, table.rows(), i);
        if k == n - 1 && 0 <= i < table.ts_exchange@.len() {
            assert(all[before.len() + 2 * i] == new[2 * i]);
            assert(all[before.len() + 2 * i + 1] == new[2 * i + 1]);
        } else if 0 <= k < n - 1 && 0 <= i < tables[order[k] as int].ts_exchange@.len() {
            let t = tables[order[k] as int];
            let s = (k + 1) as u32;
            let p = choose|p: int|
                0 <= p < before.len() && is_trade_of(#[trigger] before[p], t, s, i);
            let q = choose|q: int|
                0 <= q < before.len() && is_delivery_of(
                    #[trigger] before[q],
                    t,
                    s,
                    feed_latency_ns,
                    i,
                );
            assert(all[p] == before[p]);
            assert(all[q] == before[q]);
        }
    }
}

/// Sorting by time keeps every event.
proof fn lemma_sorted_holds(
    before: Seq<(i64, EventKind)>,
    after: Seq<(i64, EventKind)>,
    p: int,
) -> (q: int)
    requires
        is_sorted_by_time(before, after),
        0 <= p < before.len(),
    ensures
        0 <= q < after.len(),
        after[q] == before[p],
{
    let e = before[p];
    let pred = |x: (i64, EventKind)| x.0 == e.0;
    assert(events_at(after, e.0) == events_at(before, e.0));
    assert(before.contains(e));
    broadcast use {Seq::lemma_filter_contains, Seq::lemma_filter_contains_rev};

    assert(before.filter(pred).contains(e));
    assert(after.filter(pred).contains(e));
    assert(after.contains(e));
    choose|q: int| 0 <= q < after.len() && after[q] == e
}

/// Sorting by time keeps the rows.
proof fn lemma_sorted_holds_row(
    before: Seq<(i64, EventKind)>,
    after: Seq<(i64, EventKind)>,
    table: SymbolTable,
    symbol_id: u32,
    feed_latency_ns: i64,
    i: int,
)
    requires
        is_sorted_by_time(before, after),
        holds_row(before, table, symbol_id, feed_latency_ns, i),
    ensures
        holds_row(after, table, symbol_id, feed_latency_ns, i),
{
    let p = choose|p: int|
        0 <= p < before.len() && is_trade_of(#[trigger] before[p], table, symbol_id, i);
    let q = choose|q: int|
        0 <= q < before.len() && is_delivery_of(
            #[trigger] before[q],
            table,
            symbol_id,
            feed_latency_ns,
            i,
        );
    let p2 = lemma_sorted_holds(before, after, p);
    let q2 = lemma_sorted_holds(before, after, q);
    assert(is_trade_of(after[p2], table, symbol_id, i));
    assert(is_delivery_of(after[q2], table, symbol_id, feed_latency_ns, i));
}

/// The entries of a column, added up.
pub open spec fn column_sum(column: Seq<i64>, n: nat) -> int
    decreases n,
{
    if n == 0 {
        0
    } else {
        column_sum(column, (n - 1) as nat) + column[n - 1]
    }
}

/// The checksum counts every cell of every column once.
pub proof fn law_checksum_counts_every_cell(table: &ChecksumTable, n: nat)
    ensures
        table.total(n) == column_sum(table.ts_exchange@, n) + column_sum(table.price@, n)
            + column_sum(table.qty@, n) + column_sum(table.side@, n) + match table.seq {
            Some(seq) => column_sum(seq@, n),
            None => 0,
        },
    decreases n,
{
    if n > 0 {
        law_checksum_counts_every_cell(table, (n - 1) as nat);
    }
}

/// The checksum is the sum modulo 2^64.
pub proof fn law_checksum_wraps(x: int)
    ensures
        (wrap_i64(x) - x) % 0x1_0000_0000_0000_0000 == 0,
        i64::MIN <= x <= i64::MAX ==> wrap_i64(x) == x,
{
}

/// The columns that are read of a table are there, and price and side are among them: said of
/// whatever `table_columns` returns.
pub proof fn law_read_columns_are_there(
    present: &Vec<String>,
    r: Result<TableColumns, IngestError>,
)
    requires
        call_ensures(table_columns, (present,), r),
    ensures
        match r {
            Ok(columns) => {
                &&& exists|i: int|
                    0 <= i < present@.len() && (#[trigger] present@[i])@ == columns.ts_exchange@
                &&& exists|i: int|
                    0 <= i < present@.len() && (#[trigger] present@[i])@ == columns.qty@
                &&& exists|i: int| 0 <= i < present@.len() && (#[trigger] present@[i])@ == "price"@
                &&& exists|i: int| 0 <= i < present@.len() && (#[trigger] present@[i])@ == "side"@
                &&& columns.ts_exchange@ == "ts_exchange"@ || columns.ts_exchange@ == "ts_event"@
                &&& columns.qty@ == "qty"@ || columns.qty@ == "size"@
                &&& columns.has_seq <==> exists|i: int|
                    0 <= i < present@.len() && (#[trigger] present@[i])@ == "seq"@
                &&& columns.has_ts_local <==> exists|i: int|
                    0 <= i < present@.len() && (#[trigger] present@[i])@ == "ts_local"@
            },
            Err(_) => !(exists|i: int|
                0 <= i < present@.len() && (#[trigger] present@[i])@ == "ts_exchange"@) || !(exists|
                i: int,
            |
                0 <= i < present@.len() && (#[trigger] present@[i])@ == "price"@) || !(exists|
                i: int,
            |
                0 <= i < present@.len() && (#[trigger] present@[i])@ == "qty"@) || !(exists|
                i: int,
            |
                0 <= i < present@.len() && (#[trigger] present@[i])@ == "side"@),
        },
{
    assert(has_column(present@, "seq"@) <==> exists|i: int|
        0 <= i < present@.len() && (#[trigger] present@[i])@ == "seq"@);
}

/// Why a table is refused: required columns of different lengths first, then sequence
/// numbers, then local times of another length; else the first row whose side is none of 1,
/// -1 and 0, with its code.
pub proof fn law_refused_tables_have_their_fault(
    table: SymbolTable,
    symbol_id: u32,
    feed_latency_ns: i64,
)
    ensures
        ({
            let r = table.outcome(symbol_id, feed_latency_ns);
            let n = table.ts_exchange@.len();
            let uneven = table.price@.len() != n || table.qty@.len() != n || table.side@.len()
                != n;
            let uneven_seq = table.seq matches Some(v) && v@.len() != n;
            let uneven_local = table.ts_local matches Some(v) && v@.len() != n;
            &&& uneven ==> r == Err::<Seq<(i64, EventKind)>, IngestError>(
                IngestError::ColumnLengthsMismatch,
            )
            &&& !uneven && uneven_seq ==> r == Err::<Seq<(i64, EventKind)>, IngestError>(
                IngestError::SeqLengthMismatch,
            )
            &&& !uneven && !uneven_seq && uneven_local ==> r == Err::<
                Seq<(i64, EventKind)>,
                IngestError,
            >(IngestError::TsLocalLengthMismatch)
            &&& !uneven && !uneven_seq && !uneven_local && r is Err ==> exists|k: int|
                {
                    &&& 0 <= k < n
                    &&& !(-1 <= (#[trigger] table.side@[k]) <= 1)
                    &&& forall|i: int| 0 <= i < k ==> -1 <= (#[trigger] table.side@[i]) <= 1
                    &&& r == Err::<Seq<(i64, EventKind)>, IngestError>(
                        IngestError::InvalidSide { value: table.side@[k] },
                    )
                }
        }),
{
    if table.length_fault() is None && table.outcome(symbol_id, feed_latency_ns) is Err {
        lemma_first_unknown_side(table, symbol_id, feed_latency_ns, table.rows());
    }
}

proof fn lemma_first_unknown_side(
    table: SymbolTable,
    symbol_id: u32,
    feed_latency_ns: i64,
    n: nat,
)
    requires
        table.events(symbol_id, feed_latency_ns, n) is Err,
    ensures
        exists|k: int|
            {
                &&& 0 <= k < n
                &&& !(-1 <= (#[trigger] table.side@[k]) <= 1)
                &&& forall|i: int| 0 <= i < k ==> -1 <= (#[trigger] table.side@[i]) <= 1
                &&& table.events(symbol_id, feed_latency_ns, n) == Err::<
                    Seq<(i64, EventKind)>,
                    IngestError,
                >(IngestError::InvalidSide { value: table.side@[k] })
            },
    decreases n,
{
    let m = (n - 1) as nat;
    if table.events(symbol_id, feed_latency_ns, m) is Err {
        lemma_first_unknown_side(table, symbol_id, feed_latency_ns, m);
    } else {
        lemma_known_sides(table, symbol_id, feed_latency_ns, m);
        let last = table.side@[n - 1];
        assert(side_of(last as int) is Some <==> -1 <= last <= 1);
    }
}

/// All tables are taken in, or none: they are where each of them is.
pub proof fn law_tables_are_taken_in_together(
    tables: Seq<SymbolTable>,
    order: Seq<usize>,
    feed_latency_ns: i64,
    n: nat,
)
    ensures
        all_events(tables, order, feed_latency_ns, n) is Ok <==> forall|k: int|
            0 <= k < n ==> (#[trigger] tables[order[k] as int]).outcome(
                (k + 1) as u32,
                feed_latency_ns,
            ) is Ok,
    decreases n,
{
    if n > 0 {
        law_tables_are_taken_in_together(tables, order, feed_latency_ns, (n - 1) as nat);
        assert(tables[order[n - 1] as int].outcome(n as u32, feed_latency_ns)
            == tables[order[n - 1] as int].outcome((n - 1 + 1) as u32, feed_latency_ns));
    }
}

/// The checksum counts every table: that of two lists together is that of both added up.
pub proof fn law_checksum_counts_every_table(a: Seq<ChecksumTable>, b: Seq<ChecksumTable>)
    ensures
        tables_total(a + b, (a + b).len()) == tables_total(a, a.len()) + tables_total(b, b.len()),
        a.len() == 1 ==> tables_total(a, 1) == a[0].total(a[0].ts_exchange@.len()),
    decreases b.len(),
{
    if b.len() == 0 {
        assert(a + b =~= a);
    } else {
        let front = b.drop_last();
        law_checksum_counts_every_table(a, front);
        let all = a + b;
        lemma_total_of_part(all, a + front, (all.len() - 1) as nat);
        lemma_total_of_part(b, front, (b.len() - 1) as nat);
        assert(all[all.len() - 1] == b.last());
    }
    if a.len() == 1 {
        assert(tables_total(a, 0) == 0);
    }
}

proof fn lemma_total_of_part(all: Seq<ChecksumTable>, part: Seq<ChecksumTable>, n: nat)
    requires
        n <= part.len(),
        n <= all.len(),
        forall|i: int| 0 <= i < n ==> #[trigger] all[i] == part[i],
    ensures
        tables_total(all, n) == tables_total(part, n),
    decreases n,
{
    if n > 0 {
        lemma_total_of_part(all, part, (n - 1) as nat);
        assert(all[n - 1] == part[n - 1]);
    }
}

/// A checksum is refused exactly where the columns of some table differ in length.
pub proof fn law_checksum_refuses_uneven_tables(tables: Seq<ChecksumTable>, n: nat)
    requires
        n <= tables.len(),
    ensures
        first_fault(tables, n) is None <==> forall|k: int|
            0 <= k < n ==> {
                let rows = (#[trigger] tables[k]).ts_exchange@.len();
                &&& tables[k].price@.len() == rows
                &&& tables[k].qty@.len() == rows
                &&& tables[k].side@.len() == rows
                &&& tables[k].seq matches Some(v) ==> v@.len() == rows
            },
    decreases n,
{
    if n > 0 {
        law_checksum_refuses_uneven_tables(tables, (n - 1) as nat);
    }
}

/// The column that is said to be missing is: said of whatever `table_columns` returns.
pub proof fn law_missing_column_is_missing(
    present: &Vec<String>,
    r: Result<TableColumns, IngestError>,
    i: int,
)
    requires
        call_ensures(table_columns, (present,), r),
        0 <= i < present@.len(),
    ensures
        r matches Err(e) ==> e is MissingColumn,
        r == Err::<TableColumns, IngestError>(
            IngestError::MissingColumn(RequiredColumn::TsExchange),
        ) ==> present@[i]@ != "ts_exchange"@ && present@[i]@ != "ts_event"@,
        r == Err::<TableColumns, IngestError>(IngestError::MissingColumn(RequiredColumn::Price))
            ==> present@[i]@ != "price"@,
        r == Err::<TableColumns, IngestError>(IngestError::MissingColumn(RequiredColumn::Qty))
            ==> present@[i]@ != "qty"@ && present@[i]@ != "size"@,
        r == Err::<TableColumns, IngestError>(IngestError::MissingColumn(RequiredColumn::Side))
            ==> present@[i]@ != "side"@,
{
}

} // verus!
