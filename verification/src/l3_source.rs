//! Streams of order-by-order book updates.
use arrow::array::ArrayData;
use arrow::error::ArrowError;
use vstd::prelude::*;
use vstd::std_specs::iter::IteratorSpec;
use vstd::string::StringExecFns;

use crate::columns::{
    array_ints, error_text, ints_of_i64, ints_of_i8, ints_of_u64, is_first_named, is_not_named,
    law_columns_are_found_by_name, law_columns_are_read_as_they_are,
    law_columns_go_by_their_first_name, name_views, optional_values, required_values, ColumnBatch,
};
use crate::tick_source::{
    add_rows, entry_at, row_number, seq_at, side_of, Fault, IntType, TickSourceError,
};
use crate::types::{L3Update, Side};

verus! {

/// The first of the updates to come.
pub open spec fn first_update(rest: Seq<L3Update>) -> Option<L3Update> {
    if rest.len() == 0 {
        None
    } else {
        Some(rest[0])
    }
}

/// The updates to come after the first.
pub open spec fn later_updates(rest: Seq<L3Update>) -> Seq<L3Update> {
    if rest.len() == 0 {
        rest
    } else {
        rest.drop_first()
    }
}

/// Source of L3 order book events for a single symbol.
pub trait L3Source: Send {
    /// The next update, `None` where the stream is exhausted.
    open spec fn head(&self) -> Option<L3Update> {
        None
    }

    /// The symbol of the stream.
    open spec fn symbol(&self) -> u32 {
        0
    }

    /// All updates still to come, where that is known: the source then gives them, one
    /// after the other, and does not fail.
    open spec fn rest(&self) -> Option<Seq<L3Update>> {
        None
    }

    /// Whether a look at the next update may fail, now or after updates were taken.
    open spec fn peek_may_fail(&self) -> bool {
        true
    }

    /// Whether taking the next update may fail.
    open spec fn next_may_fail(&self) -> bool {
        true
    }

    /// Peek at the next update without consuming it.
    fn peek(&mut self) -> (r: Result<Option<&L3Update>, TickSourceError>)
        ensures
            match r {
                Ok(shown) => {
                    &&& old(self).head() == match shown {
                        Some(update) => Some(*update),
                        None => None,
                    }
                    &&& final(self).head() == old(self).head()
                    &&& final(self).rest() == old(self).rest()
                    &&& final(self).peek_may_fail() == old(self).peek_may_fail()
                    &&& final(self).next_may_fail() == old(self).next_may_fail()
                    &&& old(self).rest() matches Some(rest) ==> old(self).head() == first_update(rest)
                },
                Err(_) => old(self).peek_may_fail() && old(self).rest() is None,
            },
    ;

    /// Consume the next update.
    fn next(&mut self) -> (r: Result<Option<L3Update>, TickSourceError>)
        ensures
            match r {
                Ok(update) => {
                    &&& update == old(self).head()
                    &&& update is None ==> final(self).head() is None
                    &&& final(self).peek_may_fail() ==> old(self).peek_may_fail()
                    &&& old(self).rest() matches Some(rest) ==> update == first_update(rest)
                        && final(self).rest() == Some(later_updates(rest))
                },
                Err(_) => old(self).next_may_fail() && old(self).rest() is None,
            },
    ;

    /// Returns the symbol_id associated with this source.
    fn symbol_id(&self) -> (r: u32)
        ensures
            r == self.symbol(),
    ;
}

/// A source of book updates of any kind.
pub struct AnyL3Source(pub Box<dyn L3Source>);

impl L3Source for AnyL3Source {
    open spec fn head(&self) -> Option<L3Update> {
        self.0.head()
    }

    open spec fn symbol(&self) -> u32 {
        self.0.symbol()
    }

    open spec fn rest(&self) -> Option<Seq<L3Update>> {
        self.0.rest()
    }

    open spec fn peek_may_fail(&self) -> bool {
        self.0.peek_may_fail()
    }

    open spec fn next_may_fail(&self) -> bool {
        self.0.next_may_fail()
    }

    fn peek(&mut self) -> (r: Result<Option<&L3Update>, TickSourceError>) {
        self.0.peek()
    }

    fn next(&mut self) -> (r: Result<Option<L3Update>, TickSourceError>) {
        self.0.next()
    }

    fn symbol_id(&self) -> (r: u32) {
        self.0.symbol_id()
    }
}

/// The rows of a table of book updates, column by column.
#[verifier::ext_equal]
pub struct L3Rows {
    pub ts_exchange: Seq<int>,
    pub price: Seq<int>,
    pub qty: Seq<int>,
    pub side: Seq<int>,
    pub order_id: Seq<int>,
    pub action: Seq<int>,
    pub seq: Option<Seq<int>>,
}

/// The rows of a table: the required columns under their names or aliases, then the
/// optional one. The first column that cannot be read decides the fault.
pub open spec fn l3_rows(columns: Seq<(Seq<char>, ArrayData)>) -> Result<L3Rows, Fault> {
    match required_values(columns, seq!["ts_exchange"@, "ts_event"@], IntType::Int64) {
        Err(fault) => Err(fault),
        Ok(ts_exchange) => match required_values(columns, seq!["price"@], IntType::Int64) {
            Err(fault) => Err(fault),
            Ok(price) => match required_values(columns, seq!["qty"@, "size"@], IntType::Int64) {
                Err(fault) => Err(fault),
                Ok(qty) => match required_values(columns, seq!["side"@], IntType::Int8) {
                    Err(fault) => Err(fault),
                    Ok(side) => match required_values(
                        columns,
                        seq!["order_id"@],
                        IntType::UInt64,
                    ) {
                        Err(fault) => Err(fault),
                        Ok(order_id) => match required_values(
                            columns,
                            seq!["action"@],
                            IntType::Int8,
                        ) {
                            Err(fault) => Err(fault),
                            Ok(action) => match optional_values(columns, "seq"@, IntType::UInt64) {
                                Err(fault) => Err(fault),
                                Ok(seq) => Ok(
                                    L3Rows {
                                        ts_exchange,
                                        price,
                                        qty,
                                        side,
                                        order_id,
                                        action,
                                        seq,
                                    },
                                ),
                            },
                        },
                    },
                },
            },
        },
    }
}

/// The byte that a signed byte is stored as.
pub open spec fn byte_of(code: int) -> u8 {
    if code < 0 {
        (code + 256) as u8
    } else {
        code as u8
    }
}

/// The update in a row.
pub open spec fn row_update(rows: L3Rows, symbol_id: u32, first_row: u64, i: int) -> Result<L3Update, Fault> {
    match side_of(rows.side[i]) {
        None => Err(Fault::InvalidSide { value: rows.side[i] as i8 }),
        Some(side) => Ok(
            L3Update {
                ts_exchange: rows.ts_exchange[i] as i64,
                seq: seq_at(rows.seq, first_row, i),
                order_id: rows.order_id[i] as u64,
                price: rows.price[i] as i64,
                qty: rows.qty[i] as i64,
                symbol_id,
                side,
                action: byte_of(rows.action[i]),
            },
        ),
    }
}

/// A table of book updates whose columns have been read.
pub struct CachedL3Batch {
    ts_exchange: Vec<i64>,
    price: Vec<i64>,
    qty: Vec<i64>,
    side: Vec<i8>,
    order_id: Vec<u64>,
    action: Vec<i8>,
    seq: Option<Vec<u64>>,
    num_rows: usize,
}

impl View for CachedL3Batch {
    type V = L3Rows;

    closed spec fn view(&self) -> L3Rows {
        L3Rows {
            ts_exchange: ints_of_i64(self.ts_exchange@),
            price: ints_of_i64(self.price@),
            qty: ints_of_i64(self.qty@),
            side: ints_of_i8(self.side@),
            order_id: ints_of_u64(self.order_id@),
            action: ints_of_i8(self.action@),
            seq: match self.seq {
                Some(v) => Some(ints_of_u64(v@)),
                None => None,
            },
        }
    }
}

impl CachedL3Batch {
    /// The number of rows.
    pub open spec fn rows(&self) -> nat {
        self@.ts_exchange.len()
    }

    /// All columns have the same length.
    #[verifier::type_invariant]
    spec fn same_length(&self) -> bool {
        &&& self.ts_exchange@.len() == self.num_rows
        &&& self.price@.len() == self.num_rows
        &&& self.qty@.len() == self.num_rows
        &&& self.side@.len() == self.num_rows
        &&& self.order_id@.len() == self.num_rows
        &&& self.action@.len() == self.num_rows
        &&& self.seq matches Some(v) ==> v@.len() == self.num_rows
    }

    /// Reads the columns of a table of book updates.
    pub fn new(batch: &ColumnBatch) -> (r: Result<Self, TickSourceError>)
        ensures
            match r {
                Ok(cached) => {
                    &&& cached.rows() == batch.rows()
                    &&& l3_rows(batch@) == Ok::<L3Rows, Fault>(cached@)
                },
                Err(e) => l3_rows(batch@) == Err::<L3Rows, Fault>(e@),
            },
    {
        let names: Vec<&'static str> = vec!["ts_exchange", "ts_event"];
        assert(name_views(names@) =~= seq!["ts_exchange"@, "ts_event"@]);
        let ts_exchange: Vec<i64> = match batch.required_i64(&names) {
            Ok(v) => v,
            Err(e) => {
                return Err(e);
            },
        };
        let names: Vec<&'static str> = vec!["price"];
        assert(name_views(names@) =~= seq!["price"@]);
        let price: Vec<i64> = match batch.required_i64(&names) {
            Ok(v) => v,
            Err(e) => {
                return Err(e);
            },
        };
        let names: Vec<&'static str> = vec!["qty", "size"];
        assert(name_views(names@) =~= seq!["qty"@, "size"@]);
        let qty: Vec<i64> = match batch.required_i64(&names) {
            Ok(v) => v,
            Err(e) => {
                return Err(e);
            },
        };
        let names: Vec<&'static str> = vec!["side"];
        assert(name_views(names@) =~= seq!["side"@]);
        let side: Vec<i8> = match batch.required_i8(&names) {
            Ok(v) => v,
            Err(e) => {
                return Err(e);
            },
        };
        let names: Vec<&'static str> = vec!["order_id"];
        assert(name_views(names@) =~= seq!["order_id"@]);
        let order_id: Vec<u64> = match batch.required_u64(&names) {
            Ok(v) => v,
            Err(e) => {
                return Err(e);
            },
        };
        let names: Vec<&'static str> = vec!["action"];
        assert(name_views(names@) =~= seq!["action"@]);
        let action: Vec<i8> = match batch.required_i8(&names) {
            Ok(v) => v,
            Err(e) => {
                return Err(e);
            },
        };
        let seq: Option<Vec<u64>> = match batch.optional_u64("seq") {
            Ok(v) => v,
            Err(e) => {
                return Err(e);
            },
        };
        Ok(
            CachedL3Batch {
                ts_exchange,
                price,
                qty,
                side,
                order_id,
                action,
                seq,
                num_rows: batch.num_rows(),
            },
        )
    }

    pub fn num_rows(&self) -> (r: usize)
        ensures
            r == self.rows(),
    {
        proof {
            use_type_invariant(self);
        }
        self.num_rows
    }

    /// The update in a row.
    pub fn read_update_at(&self, symbol_id: u32, first_row: u64, idx: usize) -> (r: Result<
        L3Update,
        TickSourceError,
    >)
        requires
            idx < self.rows(),
        ensures
            match r {
                Ok(update) => row_update(self@, symbol_id, first_row, idx as int) == Ok::<L3Update, Fault>(
                    update,
                ),
                Err(e) => row_update(self@, symbol_id, first_row, idx as int) == Err::<L3Update, Fault>(e@),
            },
    {
        proof {
            use_type_invariant(self);
        }
        let code: i8 = self.side[idx];
        let side: Side = match Side::try_from(code) {
            Ok(side) => side,
            Err(_) => {
                return Err(TickSourceError::InvalidSide { value: code });
            },
        };
        let seq: u64 = match &self.seq {
            Some(v) => v[idx],
            None => add_rows(first_row, idx),
        };
        let action: i8 = self.action[idx];
        Ok(
            L3Update {
                ts_exchange: self.ts_exchange[idx],
                seq,
                order_id: self.order_id[idx],
                price: self.price[idx],
                qty: self.qty[idx],
                symbol_id,
                side,
                action: if action < 0 {
                    (action as i16 + 256) as u8
                } else {
                    action as u8
                },
            },
        )
    }
}

/// What a reader of tables brings first.
pub ghost enum L3Opening {
    /// A table with rows, and what comes after it; tables without rows are passed over.
    Table { rows: L3Rows, rest: Seq<Result<ColumnBatch, ArrowError>> },
    /// A table that cannot be read.
    Unreadable(Fault),
    /// An error of the reader.
    Failure,
    /// Nothing: no table with rows is left.
    End,
}

/// What a reader brings first that has these items to give.
pub open spec fn l3_opening(items: Seq<Result<ColumnBatch, ArrowError>>) -> L3Opening
    decreases items.len(),
{
    if items.len() == 0 {
        L3Opening::End
    } else {
        match items[0] {
            Err(_) => L3Opening::Failure,
            Ok(batch) => match l3_rows(batch@) {
                Err(fault) => L3Opening::Unreadable(fault),
                Ok(rows) => if batch.rows() > 0 {
                    L3Opening::Table { rows, rest: items.drop_first() }
                } else {
                    l3_opening(items.drop_first())
                },
            },
        }
    }
}

/// Whether a read-ahead from these items succeeds, with `ahead` as the update that was
/// read, at this position, and with `rest` still to come. `first_row` rows were in the
/// tables before.
pub open spec fn reads_update_ahead(
    items: Seq<Result<ColumnBatch, ArrowError>>,
    symbol_id: u32,
    first_row: u64,
    ahead: Option<L3Update>,
    position: (Option<L3Rows>, nat, u32),
    rest: Seq<Result<ColumnBatch, ArrowError>>,
) -> bool {
    match l3_opening(items) {
        L3Opening::Table { rows, rest: left } => {
            &&& ahead matches Some(update) && row_update(rows, symbol_id, first_row, 0) == Ok::<
                L3Update,
                Fault,
            >(
                update,
            )
            &&& position == (Some(rows), 1nat, symbol_id)
            &&& rest == left
        },
        L3Opening::End => {
            &&& ahead is None
            &&& position.0 is None
            &&& position.2 == symbol_id
            &&& rest.len() == 0
        },
        _ => false,
    }
}

/// Whether a read-ahead from these items fails with this fault.
pub open spec fn stops_before_update(
    items: Seq<Result<ColumnBatch, ArrowError>>,
    symbol_id: u32,
    first_row: u64,
    fault: Fault,
) -> bool {
    match l3_opening(items) {
        L3Opening::Table { rows, .. } => row_update(rows, symbol_id, first_row, 0) == Err::<L3Update, Fault>(
            fault,
        ),
        L3Opening::Unreadable(cause) => fault == cause,
        L3Opening::Failure => fault is Reader,
        L3Opening::End => false,
    }
}

/// A stream of book updates from a reader of Arrow tables.
pub struct ArrowL3Source<I> {
    symbol_id: u32,
    reader: I,
    current_batch: Option<CachedL3Batch>,
    batch_idx: usize,
    /// How many rows were in the tables before the current one.
    first_row: u64,
    next_update: Option<L3Update>,
}

impl<I> ArrowL3Source<I> {
    /// The update that was read ahead.
    pub closed spec fn ahead(&self) -> Option<L3Update> {
        self.next_update
    }

    /// The row of the current table that comes after the update that was read ahead.
    pub open spec fn next_row(&self) -> Option<Result<L3Update, Fault>> {
        match self.position() {
            (Some(rows), i, symbol_id) if i < rows.ts_exchange.len() => Some(
                row_update(rows, symbol_id, self.first_row(), i as int),
            ),
            _ => None,
        }
    }

    /// How many rows were in the tables before the current one.
    pub closed spec fn first_row(&self) -> u64 {
        self.first_row
    }

    /// How many rows there were up to the end of the current table.
    pub open spec fn rows_so_far(&self) -> u64 {
        match self.position().0 {
            Some(rows) => row_number(self.first_row() + rows.ts_exchange.len()),
            None => self.first_row(),
        }
    }

    /// The reader, with the tables that were not read yet.
    pub closed spec fn input(&self) -> I {
        self.reader
    }

    /// The current table, its next row, and the symbol of its updates.
    pub closed spec fn position(&self) -> (Option<L3Rows>, nat, u32) {
        (
            match self.current_batch {
                Some(batch) => Some(batch@),
                None => None,
            },
            self.batch_idx as nat,
            self.symbol_id,
        )
    }

    /// Takes up what the reader gave: the next table, an error, or the end of the
    /// stream. Returns whether there is a table.
    pub fn load_batch(&mut self, next: Option<Result<ColumnBatch, ArrowError>>) -> (r: Result<
        bool,
        TickSourceError,
    >)
        ensures
            final(self).input() == old(self).input(),
            match next {
                None => {
                    &&& r == Ok::<bool, TickSourceError>(false)
                    &&& final(self).ahead() is None
                    &&& final(self).position() == (None::<L3Rows>, old(self).position().1, old(
                        self).position().2)
                    &&& final(self).first_row() == old(self).first_row()
                    &&& final(self).next_row() is None
                },
                Some(Err(_)) => r matches Err(e) && e is Reader,
                Some(Ok(batch)) => match l3_rows(batch@) {
                    Ok(rows) => {
                        &&& r == Ok::<bool, TickSourceError>(true)
                        &&& final(self).ahead() == old(self).ahead()
                        &&& final(self).position() == (Some(rows), 0nat, old(self).position().2)
                        &&& final(self).first_row() == old(self).rows_so_far()
                        &&& batch.rows() == rows.ts_exchange.len()
                        &&& final(self).next_row() == if batch.rows() > 0 {
                            Some(row_update(rows, old(self).position().2, old(self).rows_so_far(), 0))
                        } else {
                            None
                        }
                    },
                    Err(fault) => r matches Err(e) && e@ == fault,
                },
            },
    {
        match next {
            None => {
                self.current_batch = None;
                self.next_update = None;
                Ok(false)
            },
            Some(Err(e)) => Err(TickSourceError::Reader(error_text(&e))),
            Some(Ok(batch)) => match CachedL3Batch::new(&batch) {
                Ok(cached) => {
                    if let Some(before) = &self.current_batch {
                        self.first_row = add_rows(self.first_row, before.num_rows());
                    }
                    self.current_batch = Some(cached);
                    self.batch_idx = 0;
                    Ok(true)
                },
                Err(e) => Err(e),
            },
        }
    }

    /// Reads the next row of the current table ahead. There is one.
    fn read_row(&mut self) -> (r: Result<(), TickSourceError>)
        requires
            old(self).next_row() is Some,
        ensures
            final(self).input() == old(self).input(),
            final(self).first_row() == old(self).first_row(),
            match r {
                Ok(()) => {
                    &&& final(self).ahead() is Some
                    &&& old(self).next_row() == Some(Ok::<L3Update, Fault>(final(self).ahead().unwrap()))
                    &&& final(self).position() == (
                        old(self).position().0,
                        old(self).position().1 + 1,
                        old(self).position().2,
                    )
                },
                Err(e) => old(self).next_row() == Some(Err::<L3Update, Fault>(e@)),
            },
    {
        let ghost start = self.position();
        match &self.current_batch {
            None => {},
            Some(batch) => {
                proof {
                    use_type_invariant(batch);
                }
                match batch.read_update_at(self.symbol_id, self.first_row, self.batch_idx) {
                    Ok(update) => {
                        self.next_update = Some(update);
                        self.batch_idx = self.batch_idx + 1;
                    },
                    Err(e) => {
                        return Err(e);
                    },
                }
            },
        }
        Ok(())
    }
}

impl<I> ArrowL3Source<I> where I: Iterator<Item = Result<ColumnBatch, ArrowError>> + Send {
    /// A stream of book updates of one symbol; the first update is read ahead.
    pub fn try_new(symbol_id: u32, reader: I) -> (r: Result<Self, TickSourceError>)
        ensures
            r matches Ok(source) ==> {
                &&& source.position().2 == symbol_id
                &&& source.ahead() matches Some(update) ==> {
                    &&& source.position().0 matches Some(rows) && source.position().1 == 1
                        && source.first_row() == 0 && row_update(rows, symbol_id, 0, 0) == Ok::<
                        L3Update,
                        Fault,
                    >(update)
                }
                &&& source.ahead() is None ==> source.position().0 is None
            },
            reader.obeys_prophetic_iter_laws() && reader.remaining().len() < u64::MAX ==> match r {
                Ok(source) => reads_update_ahead(
                    reader.remaining(),
                    symbol_id,
                    0,
                    source.ahead(),
                    source.position(),
                    source.input().remaining(),
                ),
                Err(e) => stops_before_update(reader.remaining(), symbol_id, 0, e@),
            },
    {
        let mut source = ArrowL3Source {
            symbol_id,
            reader,
            current_batch: None,
            batch_idx: 0,
            first_row: 0,
            next_update: None,
        };
        // Pre-load the first update
        match source.advance() {
            Ok(()) => Ok(source),
            Err(e) => Err(e),
        }
    }

    /// Reads the next update ahead: the next row of the current table, else the first row
    /// of the next table that has one.
    fn advance(&mut self) -> (r: Result<(), TickSourceError>)
        ensures
            old(self).next_row() matches Some(row) ==> match row {
                Ok(update) => {
                    &&& r is Ok
                    &&& final(self).ahead() == Some(update)
                    &&& final(self).position() == (
                        old(self).position().0,
                        old(self).position().1 + 1,
                        old(self).position().2,
                    )
                },
                Err(fault) => r matches Err(e) && e@ == fault,
            },
            old(self).next_row() is None && r is Ok ==> {
                &&& final(self).position().2 == old(self).position().2
                &&& final(self).ahead() matches Some(update) ==> {
                    &&& final(self).position().0 matches Some(rows) && final(self).position().1 == 1
                        && row_update(
                        rows,
                        final(self).position().2,
                        old(self).rows_so_far(),
                        0,
                    ) == Ok::<L3Update, Fault>(update)
                }
                &&& final(self).ahead() is None ==> final(self).position().0 is None
            },
            old(self).next_row() is Some ==> final(self).input() == old(self).input(),
            r is Ok && old(self).next_row() is Some ==> final(self).first_row() == old(
                self).first_row(),
            r is Ok && old(self).next_row() is None && final(self).ahead() is Some ==> final(
                self).first_row() == old(self).rows_so_far(),
            old(self).next_row() is None && old(self).input().obeys_prophetic_iter_laws() && old(
                self,
            ).input().remaining().len() < u64::MAX ==> match r {
                Ok(()) => reads_update_ahead(
                    old(self).input().remaining(),
                    old(self).position().2,
                    old(self).rows_so_far(),
                    final(self).ahead(),
                    final(self).position(),
                    final(self).input().remaining(),
                ),
                Err(e) => stops_before_update(
                    old(self).input().remaining(),
                    old(self).position().2,
                    old(self).rows_so_far(),
                    e@,
                ),
            },
    {
        if self.has_row() {
            return self.read_row();
        }
        let mut budget: u64 = u64::MAX;
        while budget > 0
            invariant
                self.position().2 == old(self).position().2,
                self.rows_so_far() == old(self).rows_so_far(),
                old(self).next_row() is None,
                old(self).input().obeys_prophetic_iter_laws() && old(
                    self,
                ).input().remaining().len() < u64::MAX ==> {
                    &&& self.input().obeys_prophetic_iter_laws()
                    &&& self.input().remaining().len() < budget
                    &&& l3_opening(self.input().remaining()) == l3_opening(
                        old(self).input().remaining(),
                    )
                },
            decreases budget,
        {
            budget = budget - 1;
            // No current batch or batch exhausted, try to load next batch
            let next = self.reader.next();
            match self.load_batch(next) {
                Ok(true) => {
                    if self.has_row() {
                        return self.read_row();
                    }
                },
                Ok(false) => {
                    return Ok(());
                },
                Err(e) => {
                    return Err(e);
                },
            }
        }
        Err(TickSourceError::Reader(String::from_str("no end of empty batches")))
    }

    /// Whether the current table has another row.
    fn has_row(&self) -> (r: bool)
        ensures
            r == (self.next_row() is Some),
    {
        match &self.current_batch {
            Some(batch) => self.batch_idx < batch.num_rows(),
            None => false,
        }
    }
}

impl<I> L3Source for ArrowL3Source<I> where
    I: Iterator<Item = Result<ColumnBatch, ArrowError>> + Send,
 {
    open spec fn head(&self) -> Option<L3Update> {
        self.ahead()
    }

    open spec fn symbol(&self) -> u32 {
        self.position().2
    }

    open spec fn peek_may_fail(&self) -> bool {
        false
    }

    open spec fn next_may_fail(&self) -> bool {
        self.ahead() is Some && !(self.next_row() matches Some(Ok(_)))
    }

    fn peek(&mut self) -> (r: Result<Option<&L3Update>, TickSourceError>)
        ensures
            final(self).ahead() == old(self).ahead(),
            final(self).position() == old(self).position(),
            final(self).first_row() == old(self).first_row(),
            final(self).input() == old(self).input(),
    {
        Ok(self.next_update.as_ref())
    }

    fn next(&mut self) -> (r: Result<Option<L3Update>, TickSourceError>)
        ensures
            old(self).head() is Some ==> match old(self).next_row() {
                Some(Ok(update)) => {
                    &&& r is Ok
                    &&& final(self).head() == Some(update)
                    &&& final(self).position() == (
                        old(self).position().0,
                        old(self).position().1 + 1,
                        old(self).position().2,
                    )
                    &&& final(self).first_row() == old(self).first_row()
                    &&& final(self).input() == old(self).input()
                },
                Some(Err(fault)) => r matches Err(e) && e@ == fault,
                None => old(self).input().obeys_prophetic_iter_laws() && old(
                    self,
                ).input().remaining().len() < u64::MAX ==> match r {
                    Ok(_) => reads_update_ahead(
                        old(self).input().remaining(),
                        old(self).position().2,
                        old(self).rows_so_far(),
                        final(self).ahead(),
                        final(self).position(),
                        final(self).input().remaining(),
                    ),
                    Err(e) => stops_before_update(
                        old(self).input().remaining(),
                        old(self).position().2,
                        old(self).rows_so_far(),
                        e@,
                    ),
                },
            },
            r is Ok && old(self).head() is Some && old(self).next_row() is None && final(
                self).ahead() is Some ==> final(self).first_row() == old(self).rows_so_far(),
            old(self).head() is None ==> {
                &&& r is Ok
                &&& final(self).position() == old(self).position()
                &&& final(self).first_row() == old(self).first_row()
                &&& final(self).input() == old(self).input()
            },
    {
        let update: Option<L3Update> = self.next_update.take();
        if update.is_some() {
            match self.advance() {
                Ok(()) => {},
                Err(e) => {
                    return Err(e);
                },
            }
        }
        Ok(update)
    }

    fn symbol_id(&self) -> (r: u32) {
        self.symbol_id
    }
}

/// A book update carries the entries of its row: those of the columns `price`, `qty` or else
/// `size`, `ts_exchange` or else `ts_event`, `order_id` and `action`, the side that the code
/// in `side` stands for, and the sequence number in `seq`, or else the number of the row in
/// the stream.
pub proof fn law_update_carries_its_row(
    columns: Seq<(Seq<char>, ArrayData)>,
    rows: L3Rows,
    symbol_id: u32,
    first_row: u64,
    i: int,
    update: L3Update,
    c: int,
)
    requires
        l3_rows(columns) == Ok::<L3Rows, Fault>(rows),
        row_update(rows, symbol_id, first_row, i) == Ok::<L3Update, Fault>(update),
        0 <= c < columns.len(),
        0 <= i < array_ints(columns[c].1).len(),
    ensures
        update.symbol_id == symbol_id,
        is_first_named(columns, c, "price"@) ==> entry_at(columns, c, i) == Some(
            update.price as int,
        ),
        is_first_named(columns, c, "qty"@) || (is_not_named(columns, "qty"@) && is_first_named(
            columns,
            c,
            "size"@,
        )) ==> entry_at(columns, c, i) == Some(update.qty as int),
        is_first_named(columns, c, "ts_exchange"@) || (is_not_named(columns, "ts_exchange"@)
            && is_first_named(columns, c, "ts_event"@)) ==> entry_at(columns, c, i) == Some(
            update.ts_exchange as int,
        ),
        is_first_named(columns, c, "side"@) ==> {
            &&& update.side is Buy <==> entry_at(columns, c, i) == Some(1int)
            &&& update.side is Sell <==> entry_at(columns, c, i) == Some(-1int)
            &&& update.side is NoSide <==> entry_at(columns, c, i) == Some(0int)
        },
{
    if is_first_named(columns, c, "price"@) {
        law_columns_are_read_as_they_are(columns, c, "price"@, IntType::Int64, i);
    }
    if is_first_named(columns, c, "side"@) {
        law_columns_are_read_as_they_are(columns, c, "side"@, IntType::Int8, i);
    }
    if is_first_named(columns, c, "qty"@) || (is_not_named(columns, "qty"@) && is_first_named(
        columns,
        c,
        "size"@,
    )) {
        law_columns_go_by_their_first_name(columns, c, "qty"@, "size"@, IntType::Int64, i);
    }
    if is_first_named(columns, c, "ts_exchange"@) || (is_not_named(columns, "ts_exchange"@)
        && is_first_named(columns, c, "ts_event"@)) {
        law_columns_go_by_their_first_name(
            columns,
            c,
            "ts_exchange"@,
            "ts_event"@,
            IntType::Int64,
            i,
        );
    }
}

/// A book update names the venue order of its row in `order_id`, what became of it in
/// `action`, and its number in `seq`, or else the number of the row in the stream.
pub proof fn law_update_names_its_order(
    columns: Seq<(Seq<char>, ArrayData)>,
    rows: L3Rows,
    symbol_id: u32,
    first_row: u64,
    i: int,
    update: L3Update,
    c: int,
)
    requires
        l3_rows(columns) == Ok::<L3Rows, Fault>(rows),
        row_update(rows, symbol_id, first_row, i) == Ok::<L3Update, Fault>(update),
        0 <= c < columns.len(),
        0 <= i < array_ints(columns[c].1).len(),
    ensures
        is_first_named(columns, c, "order_id"@) ==> entry_at(columns, c, i) == Some(
            update.order_id as int,
        ),
        is_first_named(columns, c, "action"@) ==> (entry_at(columns, c, i) matches Some(code)
            && (code >= 0 ==> update.action == code) && (code < 0 ==> update.action == code + 256)),
        is_first_named(columns, c, "seq"@) ==> entry_at(columns, c, i) == Some(update.seq as int),
        is_not_named(columns, "seq"@) && first_row + i <= u64::MAX ==> update.seq == first_row + i,
{
    law_columns_are_found_by_name(columns, c, "seq"@);
    if is_first_named(columns, c, "order_id"@) {
        law_columns_are_read_as_they_are(columns, c, "order_id"@, IntType::UInt64, i);
    }
    if is_first_named(columns, c, "action"@) {
        law_columns_are_read_as_they_are(columns, c, "action"@, IntType::Int8, i);
    }
    if is_first_named(columns, c, "seq"@) {
        law_columns_are_read_as_they_are(columns, c, "seq"@, IntType::UInt64, i);
    }
}

} // verus!
