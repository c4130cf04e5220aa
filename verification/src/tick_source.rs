//! Streams of ticks.
use arrow::array::ArrayData;
use arrow::error::ArrowError;
use vstd::prelude::*;
use vstd::std_specs::iter::IteratorSpec;
use vstd::string::StringExecFns;

use crate::columns::{
    array_ints, error_text, ints_of_i64, ints_of_i8, ints_of_u64, ints_of_u8, is_first_named,
    is_not_named, law_columns_are_found_by_name, law_columns_are_read_as_they_are,
    law_columns_go_by_their_first_name, name_views, optional_values, required_values, ColumnBatch,
};
use crate::text::{decimal, decimal_text, join, joined, views};
use crate::types::{Side, Tick};

verus! {

/// Integer types that columns are read as.
#[derive(Debug, Clone, Copy, PartialEq, Eq, Structural)]
pub enum IntType {
    Int8,
    Int64,
    UInt64,
    UInt8,
}

impl IntType {
    pub open spec fn text(self) -> Seq<char> {
        match self {
            IntType::Int8 => "Int8"@,
            IntType::Int64 => "Int64"@,
            IntType::UInt64 => "UInt64"@,
            IntType::UInt8 => "UInt8"@,
        }
    }

    fn name(self) -> (r: &'static str)
        ensures
            r@ == self.text(),
    {
        match self {
            IntType::Int8 => "Int8",
            IntType::Int64 => "Int64",
            IntType::UInt64 => "UInt64",
            IntType::UInt8 => "UInt8",
        }
    }
}

/// Why a stream of ticks cannot be read.
#[derive(Debug)]
pub enum TickSourceError {
    MissingColumn { names: Vec<String> },
    NonIntegerColumn { name: String, data_type: String },
    NullColumn { name: String },
    Cast { name: String, target_type: IntType, source: String },
    OutOfRange { name: String, target_type: IntType },
    InvalidSide { value: i8 },
    Reader(String),
}

/// The mathematical value of a `TickSourceError`.
#[verifier::ext_equal]
pub enum Fault {
    MissingColumn { names: Seq<Seq<char>> },
    NonIntegerColumn { name: Seq<char>, data_type: Seq<char> },
    NullColumn { name: Seq<char> },
    Cast { name: Seq<char>, target_type: IntType, source: Seq<char> },
    OutOfRange { name: Seq<char>, target_type: IntType },
    InvalidSide { value: i8 },
    Reader(Seq<char>),
}

impl View for TickSourceError {
    type V = Fault;

    open spec fn view(&self) -> Fault {
        match *self {
            TickSourceError::MissingColumn { names } => Fault::MissingColumn {
                names: views(names@),
            },
            TickSourceError::NonIntegerColumn { name, data_type } => Fault::NonIntegerColumn {
                name: name@,
                data_type: data_type@,
            },
            TickSourceError::NullColumn { name } => Fault::NullColumn { name: name@ },
            TickSourceError::Cast { name, target_type, source } => Fault::Cast {
                name: name@,
                target_type,
                source: source@,
            },
            TickSourceError::OutOfRange { name, target_type } => Fault::OutOfRange {
                name: name@,
                target_type,
            },
            TickSourceError::InvalidSide { value } => Fault::InvalidSide { value },
            TickSourceError::Reader(source) => Fault::Reader(source@),
        }
    }
}

impl TickSourceError {
    /// The text for users.
    pub open spec fn text(self) -> Seq<char> {
        match self {
            TickSourceError::MissingColumn { names } => "missing "@ + joined(views(names@), "/"@),
            TickSourceError::NonIntegerColumn { name, data_type } => name@
                + " is not an integer column (got "@ + data_type@ + ")"@,
            TickSourceError::NullColumn { name } => name@ + " column contains nulls"@,
            TickSourceError::Cast { name, target_type, source } => name@ + " cannot be cast to "@
                + target_type.text() + ": "@ + source@,
            TickSourceError::OutOfRange { name, target_type } => name@
                + " contains values out of "@ + target_type.text() + " range"@,
            TickSourceError::InvalidSide { value } => "invalid side "@ + decimal_text(
                value as int,
            ) + " (expected 1, -1, or 0)"@,
            TickSourceError::Reader(source) => "error reading arrow stream: "@ + source@,
        }
    }

    /// The text for users.
    pub fn message(&self) -> (r: String)
        ensures
            r@ == self.text(),
    {
        let mut r: String = String::new();
        match self {
            TickSourceError::MissingColumn { names } => {
                r.append("missing ");
                r.append(join(names, "/").as_str());
            },
            TickSourceError::NonIntegerColumn { name, data_type } => {
                r.append(name.as_str());
                r.append(" is not an integer column (got ");
                r.append(data_type.as_str());
                r.append(")");
            },
            TickSourceError::NullColumn { name } => {
                r.append(name.as_str());
                r.append(" column contains nulls");
            },
            TickSourceError::Cast { name, target_type, source } => {
                r.append(name.as_str());
                r.append(" cannot be cast to ");
                r.append(target_type.name());
                r.append(": ");
                r.append(source.as_str());
            },
            TickSourceError::OutOfRange { name, target_type } => {
                r.append(name.as_str());
                r.append(" contains values out of ");
                r.append(target_type.name());
                r.append(" range");
            },
            TickSourceError::InvalidSide { value } => {
                r.append("invalid side ");
                r.append(decimal(*value).as_str());
                r.append(" (expected 1, -1, or 0)");
            },
            TickSourceError::Reader(source) => {
                r.append("error reading arrow stream: ");
                r.append(source.as_str());
            },
        }
        assert(r@ =~= self.text());
        r
    }
}

/// The first of the ticks to come.
pub open spec fn first_tick(rest: Seq<Tick>) -> Option<Tick> {
    if rest.len() == 0 {
        None
    } else {
        Some(rest[0])
    }
}

/// The ticks to come after the first.
pub open spec fn later_ticks(rest: Seq<Tick>) -> Seq<Tick> {
    if rest.len() == 0 {
        rest
    } else {
        rest.drop_first()
    }
}

/// A source of ticks for a single (exchange, symbol) stream.
///
/// This abstraction allows the engine to be agnostic to whether ticks come from
/// a localized Vec, a CSV file, or an Arrow stream.
pub trait TickSource: Send {
    /// The next tick, `None` where the stream is exhausted.
    open spec fn head(&self) -> Option<Tick> {
        None
    }

    /// The symbol of the stream.
    open spec fn symbol(&self) -> u32 {
        0
    }

    /// All ticks still to come, where that is known: the source then gives them, one
    /// after the other, and does not fail.
    open spec fn rest(&self) -> Option<Seq<Tick>> {
        None
    }

    /// Whether a look at the next tick may fail, now or after ticks were taken.
    open spec fn peek_may_fail(&self) -> bool {
        true
    }

    /// Whether taking the next tick may fail.
    open spec fn next_may_fail(&self) -> bool {
        true
    }

    /// Peek at the next available tick without consuming it.
    /// Returns None if the stream is exhausted.
    fn peek(&mut self) -> (r: Result<Option<&Tick>, TickSourceError>)
        ensures
            match r {
                Ok(shown) => {
                    &&& old(self).head() == match shown {
                        Some(tick) => Some(*tick),
                        None => None,
                    }
                    &&& final(self).head() == old(self).head()
                    &&& final(self).rest() == old(self).rest()
                    &&& final(self).peek_may_fail() == old(self).peek_may_fail()
                    &&& final(self).next_may_fail() == old(self).next_may_fail()
                    &&& old(self).rest() matches Some(rest) ==> old(self).head() == first_tick(rest)
                },
                Err(_) => old(self).peek_may_fail() && old(self).rest() is None,
            },
    ;

    /// Consume the next tick.
    /// Returns None if the stream is exhausted.
    fn next(&mut self) -> (r: Result<Option<Tick>, TickSourceError>)
        ensures
            match r {
                Ok(tick) => {
                    &&& tick == old(self).head()
                    &&& tick is None ==> final(self).head() is None
                    &&& final(self).peek_may_fail() ==> old(self).peek_may_fail()
                    &&& old(self).rest() matches Some(rest) ==> tick == first_tick(rest)
                        && final(self).rest() == Some(later_ticks(rest))
                },
                Err(_) => old(self).next_may_fail() && old(self).rest() is None,
            },
    ;

    /// Returns the symbol_id associated with this source.
    fn symbol_id(&self) -> (r: u32)
        ensures
            r == self.symbol(),
    ;
}

/// A source of ticks of any kind.
pub struct AnyTickSource(pub Box<dyn TickSource>);

impl TickSource for AnyTickSource {
    open spec fn head(&self) -> Option<Tick> {
        self.0.head()
    }

    open spec fn symbol(&self) -> u32 {
        self.0.symbol()
    }

    open spec fn rest(&self) -> Option<Seq<Tick>> {
        self.0.rest()
    }

    open spec fn peek_may_fail(&self) -> bool {
        self.0.peek_may_fail()
    }

    open spec fn next_may_fail(&self) -> bool {
        self.0.next_may_fail()
    }

    fn peek(&mut self) -> (r: Result<Option<&Tick>, TickSourceError>) {
        self.0.peek()
    }

    fn next(&mut self) -> (r: Result<Option<Tick>, TickSourceError>) {
        self.0.next()
    }

    fn symbol_id(&self) -> (r: u32) {
        self.0.symbol_id()
    }
}

/// The rows of a table of ticks, column by column.
#[verifier::ext_equal]
pub struct TickRows {
    pub ts_exchange: Seq<int>,
    pub price: Seq<int>,
    pub qty: Seq<int>,
    pub side: Seq<int>,
    pub seq: Option<Seq<int>>,
    pub ts_local: Option<Seq<int>>,
    pub flags: Option<Seq<int>>,
}

/// The rows of a table: the required columns under their names or aliases, then the
/// optional ones. The first column that cannot be read decides the fault.
pub open spec fn tick_rows(columns: Seq<(Seq<char>, ArrayData)>) -> Result<TickRows, Fault> {
    match required_values(columns, seq!["ts_exchange"@, "ts_event"@], IntType::Int64) {
        Err(fault) => Err(fault),
        Ok(ts_exchange) => match required_values(columns, seq!["price"@], IntType::Int64) {
            Err(fault) => Err(fault),
            Ok(price) => match required_values(columns, seq!["qty"@, "size"@], IntType::Int64) {
                Err(fault) => Err(fault),
                Ok(qty) => match required_values(columns, seq!["side"@], IntType::Int8) {
                    Err(fault) => Err(fault),
                    Ok(side) => match optional_values(columns, "seq"@, IntType::UInt64) {
                        Err(fault) => Err(fault),
                        Ok(seq) => match optional_values(columns, "ts_local"@, IntType::Int64) {
                            Err(fault) => Err(fault),
                            Ok(ts_local) => match optional_values(
                                columns,
                                "flags"@,
                                IntType::UInt8,
                            ) {
                                Err(fault) => Err(fault),
                                Ok(flags) => Ok(
                                    TickRows { ts_exchange, price, qty, side, seq, ts_local, flags },
                                ),
                            },
                        },
                    },
                },
            },
        },
    }
}

/// The side that a code stands for.
pub open spec fn side_of(code: int) -> Option<Side> {
    if code == 1 {
        Some(Side::Buy)
    } else if code == -1 {
        Some(Side::Sell)
    } else if code == 0 {
        Some(Side::NoSide)
    } else {
        None
    }
}

/// The entry of an optional column, 0 where the column is missing.
pub open spec fn entry_or_zero(column: Option<Seq<int>>, i: int) -> int {
    match column {
        Some(values) => values[i],
        None => 0,
    }
}

/// `n` as the number of a row, at most the largest that there is.
pub open spec fn row_number(n: int) -> u64 {
    if n > u64::MAX {
        u64::MAX
    } else {
        n as u64
    }
}

/// The number of a row that comes `n` rows after another.
pub(crate) fn add_rows(first_row: u64, n: usize) -> (r: u64)
    ensures
        r == row_number(first_row + n),
{
    let n: u64 = n as u64;
    if first_row > u64::MAX - n {
        u64::MAX
    } else {
        first_row + n
    }
}

/// The sequence number of a row: the entry of its column, and where there is no such
/// column the index of the row in the stream.
pub open spec fn seq_at(column: Option<Seq<int>>, first_row: u64, i: int) -> u64 {
    match column {
        Some(values) => values[i] as u64,
        None => row_number(first_row + i),
    }
}

/// The tick in a row, where `first_row` rows of the stream came before its table.
pub open spec fn row_tick(rows: TickRows, symbol_id: u32, first_row: u64, i: int) -> Result<Tick, Fault> {
    match side_of(rows.side[i]) {
        None => Err(Fault::InvalidSide { value: rows.side[i] as i8 }),
        Some(side) => Ok(
            Tick {
                ts_exchange: rows.ts_exchange[i] as i64,
                ts_local: entry_or_zero(rows.ts_local, i) as i64,
                seq: seq_at(rows.seq, first_row, i),
                price: rows.price[i] as i64,
                qty: rows.qty[i] as i64,
                symbol_id,
                side,
                flags: entry_or_zero(rows.flags, i) as u8,
            },
        ),
    }
}

/// A table of ticks whose columns have been read.
pub struct CachedBatch {
    ts_exchange: Vec<i64>,
    price: Vec<i64>,
    qty: Vec<i64>,
    side: Vec<i8>,
    seq: Option<Vec<u64>>,
    ts_local: Option<Vec<i64>>,
    flags: Option<Vec<u8>>,
    num_rows: usize,
}

impl View for CachedBatch {
    type V = TickRows;

    closed spec fn view(&self) -> TickRows {
        TickRows {
            ts_exchange: ints_of_i64(self.ts_exchange@),
            price: ints_of_i64(self.price@),
            qty: ints_of_i64(self.qty@),
            side: ints_of_i8(self.side@),
            seq: match self.seq {
                Some(v) => Some(ints_of_u64(v@)),
                None => None,
            },
            ts_local: match self.ts_local {
                Some(v) => Some(ints_of_i64(v@)),
                None => None,
            },
            flags: match self.flags {
                Some(v) => Some(ints_of_u8(v@)),
                None => None,
            },
        }
    }
}

impl CachedBatch {
    /// The number of rows.
    pub open spec fn rows(&self) -> nat {
        self@.ts_exchange.len()
    }

    /// All columns have the same length.
    #[verifier::type_invariant]
    spec fn same_length(&self) -> bool {
        &&& self.ts_exchange@.len() == self.num_rows
        &&& self.price@.len() == self.num_rows
        &&& self.qty@.len() == self.num_rows
        &&& self.side@.len() == self.num_rows
        &&& self.seq matches Some(v) ==> v@.len() == self.num_rows
        &&& self.ts_local matches Some(v) ==> v@.len() == self.num_rows
        &&& self.flags matches Some(v) ==> v@.len() == self.num_rows
    }

    /// Reads the columns of a table of ticks.
    pub fn new(batch: &ColumnBatch) -> (r: Result<Self, TickSourceError>)
        ensures
            match r {
                Ok(cached) => {
                    &&& cached.rows() == batch.rows()
                    &&& tick_rows(batch@) == Ok::<TickRows, Fault>(cached@)
                },
                Err(e) => tick_rows(batch@) == Err::<TickRows, Fault>(e@),
            },
    {
        let names: Vec<&'static str> = vec!["ts_exchange", "ts_event"];
        assert(name_views(names@) =~= seq!["ts_exchange"@, "ts_event"@]);
        let ts_exchange: Vec<i64> = match batch.required_i64(&names) {
            Ok(v) => v,
            Err(e) => {
                return Err(e);
            },
        };
        let names: Vec<&'static str> = vec!["price"];
        assert(name_views(names@) =~= seq!["price"@]);
        let price: Vec<i64> = match batch.required_i64(&names) {
            Ok(v) => v,
            Err(e) => {
                return Err(e);
            },
        };
        let names: Vec<&'static str> = vec!["qty", "size"];
        assert(name_views(names@) =~= seq!["qty"@, "size"@]);
        let qty: Vec<i64> = match batch.required_i64(&names) {
            Ok(v) => v,
            Err(e) => {
                return Err(e);
            },
        };
        let names: Vec<&'static str> = vec!["side"];
        assert(name_views(names@) =~= seq!["side"@]);
        let side: Vec<i8> = match batch.required_i8(&names) {
            Ok(v) => v,
            Err(e) => {
                return Err(e);
            },
        };
        let seq: Option<Vec<u64>> = match batch.optional_u64("seq") {
            Ok(v) => v,
            Err(e) => {
                return Err(e);
            },
        };
        let ts_local: Option<Vec<i64>> = match batch.optional_i64("ts_local") {
            Ok(v) => v,
            Err(e) => {
                return Err(e);
            },
        };
        let flags: Option<Vec<u8>> = match batch.optional_u8("flags") {
            Ok(v) => v,
            Err(e) => {
                return Err(e);
            },
        };
        Ok(
            CachedBatch {
                ts_exchange,
                price,
                qty,
                side,
                seq,
                ts_local,
                flags,
                num_rows: batch.num_rows(),
            },
        )
    }

    pub fn num_rows(&self) -> (r: usize)
        ensures
            r == self.rows(),
    {
        proof {
            use_type_invariant(self);
        }
        self.num_rows
    }

    /// The tick in a row.
    pub fn read_tick_at(&self, symbol_id: u32, first_row: u64, idx: usize) -> (r: Result<Tick, TickSourceError>)
        requires
            idx < self.rows(),
        ensures
            match r {
                Ok(tick) => row_tick(self@, symbol_id, first_row, idx as int) == Ok::<Tick, Fault>(tick),
                Err(e) => row_tick(self@, symbol_id, first_row, idx as int) == Err::<Tick, Fault>(e@),
            },
    {
        proof {
            use_type_invariant(self);
        }
        let code: i8 = self.side[idx];
        let side: Side = match Side::try_from(code) {
            Ok(side) => side,
            Err(_) => {
                return Err(TickSourceError::InvalidSide { value: code });
            },
        };
        let seq: u64 = match &self.seq {
            Some(v) => v[idx],
            None => add_rows(first_row, idx),
        };
        let ts_local: i64 = match &self.ts_local {
            Some(v) => v[idx],
            None => 0,
        };
        let flags: u8 = match &self.flags {
            Some(v) => v[idx],
            None => 0,
        };
        Ok(
            Tick {
                ts_exchange: self.ts_exchange[idx],
                ts_local,
                seq,
                symbol_id,
                price: self.price[idx],
                qty: self.qty[idx],
                side,
                flags,
            },
        )
    }
}

/// What a reader of tables brings first.
pub ghost enum TickOpening {
    /// A table with rows, and what comes after it; tables without rows are passed over.
    Table { rows: TickRows, rest: Seq<Result<ColumnBatch, ArrowError>> },
    /// A table that cannot be read.
    Unreadable(Fault),
    /// An error of the reader.
    Failure,
    /// Nothing: no table with rows is left.
    End,
}

/// What a reader brings first that has these items to give.
pub open spec fn tick_opening(items: Seq<Result<ColumnBatch, ArrowError>>) -> TickOpening
    decreases items.len(),
{
    if items.len() == 0 {
        TickOpening::End
    } else {
        match items[0] {
            Err(_) => TickOpening::Failure,
            Ok(batch) => match tick_rows(batch@) {
                Err(fault) => TickOpening::Unreadable(fault),
                Ok(rows) => if batch.rows() > 0 {
                    TickOpening::Table { rows, rest: items.drop_first() }
                } else {
                    tick_opening(items.drop_first())
                },
            },
        }
    }
}

/// Whether a read-ahead from these items succeeds, with `ahead` as the tick that was
/// read, at this position, and with `rest` still to come. `first_row` rows were in the
/// tables before.
pub open spec fn reads_tick_ahead(
    items: Seq<Result<ColumnBatch, ArrowError>>,
    symbol_id: u32,
    first_row: u64,
    ahead: Option<Tick>,
    position: (Option<TickRows>, nat, u32),
    rest: Seq<Result<ColumnBatch, ArrowError>>,
) -> bool {
    match tick_opening(items) {
        TickOpening::Table { rows, rest: left } => {
            &&& ahead matches Some(tick) && row_tick(rows, symbol_id, first_row, 0) == Ok::<
                Tick,
                Fault,
            >(
                tick,
            )
            &&& position == (Some(rows), 1nat, symbol_id)
            &&& rest == left
        },
        TickOpening::End => {
            &&& ahead is None
            &&& position.0 is None
            &&& position.2 == symbol_id
            &&& rest.len() == 0
        },
        _ => false,
    }
}

/// Whether a read-ahead from these items fails with this fault.
pub open spec fn stops_before_tick(
    items: Seq<Result<ColumnBatch, ArrowError>>,
    symbol_id: u32,
    first_row: u64,
    fault: Fault,
) -> bool {
    match tick_opening(items) {
        TickOpening::Table { rows, .. } => row_tick(rows, symbol_id, first_row, 0) == Err::<Tick, Fault>(
            fault,
        ),
        TickOpening::Unreadable(cause) => fault == cause,
        TickOpening::Failure => fault is Reader,
        TickOpening::End => false,
    }
}

/// A stream of ticks from a reader of Arrow tables.
pub struct ArrowTickSource<I> {
    symbol_id: u32,
    reader: I,
    current_batch: Option<CachedBatch>,
    batch_idx: usize,
    /// How many rows were in the tables before the current one.
    first_row: u64,
    next_tick: Option<Tick>,
}

impl<I> ArrowTickSource<I> {
    /// The tick that was read ahead.
    pub closed spec fn ahead(&self) -> Option<Tick> {
        self.next_tick
    }

    /// The row of the current table that comes after the tick that was read ahead.
    pub open spec fn next_row(&self) -> Option<Result<Tick, Fault>> {
        match self.position() {
            (Some(rows), i, symbol_id) if i < rows.ts_exchange.len() => Some(
                row_tick(rows, symbol_id, self.first_row(), i as int),
            ),
            _ => None,
        }
    }

    /// How many rows were in the tables before the current one.
    pub closed spec fn first_row(&self) -> u64 {
        self.first_row
    }

    /// How many rows there were up to the end of the current table.
    pub open spec fn rows_so_far(&self) -> u64 {
        match self.position().0 {
            Some(rows) => row_number(self.first_row() + rows.ts_exchange.len()),
            None => self.first_row(),
        }
    }

    /// The reader, with the tables that were not read yet.
    pub closed spec fn input(&self) -> I {
        self.reader
    }

    /// The current table, its next row, and the symbol of its ticks.
    pub closed spec fn position(&self) -> (Option<TickRows>, nat, u32) {
        (
            match self.current_batch {
                Some(batch) => Some(batch@),
                None => None,
            },
            self.batch_idx as nat,
            self.symbol_id,
        )
    }

    /// Takes up what the reader gave: the next table, an error, or the end of the
    /// stream. Returns whether there is a table.
    pub fn load_batch(&mut self, next: Option<Result<ColumnBatch, ArrowError>>) -> (r: Result<
        bool,
        TickSourceError,
    >)
        ensures
            final(self).input() == old(self).input(),
            match next {
                None => {
                    &&& r == Ok::<bool, TickSourceError>(false)
                    &&& final(self).ahead() is None
                    &&& final(self).position() == (None::<TickRows>, old(self).position().1, old(
                        self).position().2)
                    &&& final(self).first_row() == old(self).first_row()
                    &&& final(self).next_row() is None
                },
                Some(Err(_)) => r matches Err(e) && e is Reader,
                Some(Ok(batch)) => match tick_rows(batch@) {
                    Ok(rows) => {
                        &&& r == Ok::<bool, TickSourceError>(true)
                        &&& final(self).ahead() == old(self).ahead()
                        &&& final(self).position() == (Some(rows), 0nat, old(self).position().2)
                        &&& final(self).first_row() == old(self).rows_so_far()
                        &&& batch.rows() == rows.ts_exchange.len()
                        &&& final(self).next_row() == if batch.rows() > 0 {
                            Some(row_tick(rows, old(self).position().2, old(self).rows_so_far(), 0))
                        } else {
                            None
                        }
                    },
                    Err(fault) => r matches Err(e) && e@ == fault,
                },
            },
    {
        match next {
            None => {
                self.current_batch = None;
                self.next_tick = None;
                Ok(false)
            },
            Some(Err(e)) => Err(TickSourceError::Reader(error_text(&e))),
            Some(Ok(batch)) => match CachedBatch::new(&batch) {
                Ok(cached) => {
                    if let Some(before) = &self.current_batch {
                        self.first_row = add_rows(self.first_row, before.num_rows());
                    }
                    self.current_batch = Some(cached);
                    self.batch_idx = 0;
                    Ok(true)
                },
                Err(e) => Err(e),
            },
        }
    }

    /// Reads the next row of the current table ahead. There is one.
    fn read_row(&mut self) -> (r: Result<(), TickSourceError>)
        requires
            old(self).next_row() is Some,
        ensures
            final(self).input() == old(self).input(),
            final(self).first_row() == old(self).first_row(),
            match r {
                Ok(()) => {
                    &&& final(self).ahead() is Some
                    &&& old(self).next_row() == Some(Ok::<Tick, Fault>(final(self).ahead().unwrap()))
                    &&& final(self).position() == (
                        old(self).position().0,
                        old(self).position().1 + 1,
                        old(self).position().2,
                    )
                },
                Err(e) => old(self).next_row() == Some(Err::<Tick, Fault>(e@)),
            },
    {
        let ghost start = self.position();
        match &self.current_batch {
            None => {},
            Some(batch) => {
                proof {
                    use_type_invariant(batch);
                }
                match batch.read_tick_at(self.symbol_id, self.first_row, self.batch_idx) {
                    Ok(tick) => {
                        self.next_tick = Some(tick);
                        self.batch_idx = self.batch_idx + 1;
                    },
                    Err(e) => {
                        return Err(e);
                    },
                }
            },
        }
        Ok(())
    }
}

impl<I> ArrowTickSource<I> where I: Iterator<Item = Result<ColumnBatch, ArrowError>> + Send {
    /// A stream of ticks of one symbol; the first tick is read ahead.
    pub fn try_new(symbol_id: u32, reader: I) -> (r: Result<Self, TickSourceError>)
        ensures
            r matches Ok(source) ==> {
                &&& source.position().2 == symbol_id
                &&& source.ahead() matches Some(tick) ==> {
                    &&& source.position().0 matches Some(rows) && source.position().1 == 1
                        && source.first_row() == 0 && row_tick(rows, symbol_id, 0, 0) == Ok::<
                        Tick,
                        Fault,
                    >(tick)
                }
                &&& source.ahead() is None ==> source.position().0 is None
            },
            reader.obeys_prophetic_iter_laws() && reader.remaining().len() < u64::MAX ==> match r {
                Ok(source) => reads_tick_ahead(
                    reader.remaining(),
                    symbol_id,
                    0,
                    source.ahead(),
                    source.position(),
                    source.input().remaining(),
                ),
                Err(e) => stops_before_tick(reader.remaining(), symbol_id, 0, e@),
            },
    {
        let mut source = ArrowTickSource {
            symbol_id,
            reader,
            current_batch: None,
            batch_idx: 0,
            first_row: 0,
            next_tick: None,
        };
        // Pre-load the first tick
        match source.advance() {
            Ok(()) => Ok(source),
            Err(e) => Err(e),
        }
    }

    /// Reads the next tick ahead: the next row of the current table, else the first row
    /// of the next table that has one.
    fn advance(&mut self) -> (r: Result<(), TickSourceError>)
        ensures
            old(self).next_row() matches Some(row) ==> match row {
                Ok(tick) => {
                    &&& r is Ok
                    &&& final(self).ahead() == Some(tick)
                    &&& final(self).position() == (
                        old(self).position().0,
                        old(self).position().1 + 1,
                        old(self).position().2,
                    )
                },
                Err(fault) => r matches Err(e) && e@ == fault,
            },
            old(self).next_row() is None && r is Ok ==> {
                &&& final(self).position().2 == old(self).position().2
                &&& final(self).ahead() matches Some(tick) ==> {
                    &&& final(self).position().0 matches Some(rows) && final(self).position().1 == 1
                        && row_tick(
                        rows,
                        final(self).position().2,
                        old(self).rows_so_far(),
                        0,
                    ) == Ok::<Tick, Fault>(tick)
                }
                &&& final(self).ahead() is None ==> final(self).position().0 is None
            },
            old(self).next_row() is Some ==> final(self).input() == old(self).input(),
            r is Ok && old(self).next_row() is Some ==> final(self).first_row() == old(
                self).first_row(),
            r is Ok && old(self).next_row() is None && final(self).ahead() is Some ==> final(
                self).first_row() == old(self).rows_so_far(),
            old(self).next_row() is None && old(self).input().obeys_prophetic_iter_laws() && old(
                self,
            ).input().remaining().len() < u64::MAX ==> match r {
                Ok(()) => reads_tick_ahead(
                    old(self).input().remaining(),
                    old(self).position().2,
                    old(self).rows_so_far(),
                    final(self).ahead(),
                    final(self).position(),
                    final(self).input().remaining(),
                ),
                Err(e) => stops_before_tick(
                    old(self).input().remaining(),
                    old(self).position().2,
                    old(self).rows_so_far(),
                    e@,
                ),
            },
    {
        if self.has_row() {
            return self.read_row();
        }
        let mut budget: u64 = u64::MAX;
        while budget > 0
            invariant
                self.position().2 == old(self).position().2,
                self.rows_so_far() == old(self).rows_so_far(),
                old(self).next_row() is None,
                old(self).input().obeys_prophetic_iter_laws() && old(
                    self,
                ).input().remaining().len() < u64::MAX ==> {
                    &&& self.input().obeys_prophetic_iter_laws()
                    &&& self.input().remaining().len() < budget
                    &&& tick_opening(self.input().remaining()) == tick_opening(
                        old(self).input().remaining(),
                    )
                },
            decreases budget,
        {
            budget = budget - 1;
            // No current batch or batch exhausted, try to load next batch
            let next = self.reader.next();
            match self.load_batch(next) {
                Ok(true) => {
                    if self.has_row() {
                        return self.read_row();
                    }
                },
                Ok(false) => {
                    return Ok(());
                },
                Err(e) => {
                    return Err(e);
                },
            }
        }
        Err(TickSourceError::Reader(String::from_str("no end of empty batches")))
    }

    /// Whether the current table has another row.
    fn has_row(&self) -> (r: bool)
        ensures
            r == (self.next_row() is Some),
    {
        match &self.current_batch {
            Some(batch) => self.batch_idx < batch.num_rows(),
            None => false,
        }
    }
}

impl<I> TickSource for ArrowTickSource<I> where
    I: Iterator<Item = Result<ColumnBatch, ArrowError>> + Send,
 {
    open spec fn head(&self) -> Option<Tick> {
        self.ahead()
    }

    open spec fn symbol(&self) -> u32 {
        self.position().2
    }

    open spec fn peek_may_fail(&self) -> bool {
        false
    }

    open spec fn next_may_fail(&self) -> bool {
        self.ahead() is Some && !(self.next_row() matches Some(Ok(_)))
    }

    fn peek(&mut self) -> (r: Result<Option<&Tick>, TickSourceError>)
        ensures
            final(self).ahead() == old(self).ahead(),
            final(self).position() == old(self).position(),
            final(self).first_row() == old(self).first_row(),
            final(self).input() == old(self).input(),
    {
        Ok(self.next_tick.as_ref())
    }

    fn next(&mut self) -> (r: Result<Option<Tick>, TickSourceError>)
        ensures
            old(self).head() is Some ==> match old(self).next_row() {
                Some(Ok(tick)) => {
                    &&& r is Ok
                    &&& final(self).head() == Some(tick)
                    &&& final(self).position() == (
                        old(self).position().0,
                        old(self).position().1 + 1,
                        old(self).position().2,
                    )
                    &&& final(self).first_row() == old(self).first_row()
                    &&& final(self).input() == old(self).input()
                },
                Some(Err(fault)) => r matches Err(e) && e@ == fault,
                None => old(self).input().obeys_prophetic_iter_laws() && old(
                    self,
                ).input().remaining().len() < u64::MAX ==> match r {
                    Ok(_) => reads_tick_ahead(
                        old(self).input().remaining(),
                        old(self).position().2,
                        old(self).rows_so_far(),
                        final(self).ahead(),
                        final(self).position(),
                        final(self).input().remaining(),
                    ),
                    Err(e) => stops_before_tick(
                        old(self).input().remaining(),
                        old(self).position().2,
                        old(self).rows_so_far(),
                        e@,
                    ),
                },
            },
            r is Ok && old(self).head() is Some && old(self).next_row() is None && final(
                self).ahead() is Some ==> final(self).first_row() == old(self).rows_so_far(),
            old(self).head() is None ==> {
                &&& r is Ok
                &&& final(self).position() == old(self).position()
                &&& final(self).first_row() == old(self).first_row()
                &&& final(self).input() == old(self).input()
            },
    {
        let tick: Option<Tick> = self.next_tick.take();
        if tick.is_some() {
            match self.advance() {
                Ok(()) => {},
                Err(e) => {
                    return Err(e);
                },
            }
        }
        Ok(tick)
    }

    fn symbol_id(&self) -> (r: u32) {
        self.symbol_id
    }
}

/// The entry of a row in a column.
pub open spec fn entry_at(columns: Seq<(Seq<char>, ArrayData)>, c: int, i: int) -> Option<int> {
    array_ints(columns[c].1)[i]
}

/// A tick carries the entries of its row: those of the columns `price`, `qty` or else `size`,
/// and `ts_exchange` or else `ts_event`, and the side that the code in `side` stands for.
pub proof fn law_tick_carries_its_row(
    columns: Seq<(Seq<char>, ArrayData)>,
    rows: TickRows,
    symbol_id: u32,
    first_row: u64,
    i: int,
    tick: Tick,
    c: int,
)
    requires
        tick_rows(columns) == Ok::<TickRows, Fault>(rows),
        row_tick(rows, symbol_id, first_row, i) == Ok::<Tick, Fault>(tick),
        0 <= c < columns.len(),
        0 <= i < array_ints(columns[c].1).len(),
    ensures
        tick.symbol_id == symbol_id,
        is_first_named(columns, c, "price"@) ==> entry_at(columns, c, i) == Some(
            tick.price as int,
        ),
        is_first_named(columns, c, "qty"@) || (is_not_named(columns, "qty"@) && is_first_named(
            columns,
            c,
            "size"@,
        )) ==> entry_at(columns, c, i) == Some(tick.qty as int),
        is_first_named(columns, c, "ts_exchange"@) || (is_not_named(columns, "ts_exchange"@)
            && is_first_named(columns, c, "ts_event"@)) ==> entry_at(columns, c, i) == Some(
            tick.ts_exchange as int,
        ),
        is_first_named(columns, c, "side"@) ==> {
            &&& tick.side is Buy <==> entry_at(columns, c, i) == Some(1int)
            &&& tick.side is Sell <==> entry_at(columns, c, i) == Some(-1int)
            &&& tick.side is NoSide <==> entry_at(columns, c, i) == Some(0int)
        },
{
    if is_first_named(columns, c, "price"@) {
        law_columns_are_read_as_they_are(columns, c, "price"@, IntType::Int64, i);
    }
    if is_first_named(columns, c, "side"@) {
        law_columns_are_read_as_they_are(columns, c, "side"@, IntType::Int8, i);
    }
    if is_first_named(columns, c, "qty"@) || (is_not_named(columns, "qty"@) && is_first_named(
        columns,
        c,
        "size"@,
    )) {
        law_columns_go_by_their_first_name(columns, c, "qty"@, "size"@, IntType::Int64, i);
    }
    if is_first_named(columns, c, "ts_exchange"@) || (is_not_named(columns, "ts_exchange"@)
        && is_first_named(columns, c, "ts_event"@)) {
        law_columns_go_by_their_first_name(
            columns,
            c,
            "ts_exchange"@,
            "ts_event"@,
            IntType::Int64,
            i,
        );
    }
}

/// A tick carries the optional entries of its row: those of the columns `seq`, `ts_local` and
/// `flags`; without them the number of the row in the stream, and 0.
pub proof fn law_tick_carries_its_optional_columns(
    columns: Seq<(Seq<char>, ArrayData)>,
    rows: TickRows,
    symbol_id: u32,
    first_row: u64,
    i: int,
    tick: Tick,
    c: int,
)
    requires
        tick_rows(columns) == Ok::<TickRows, Fault>(rows),
        row_tick(rows, symbol_id, first_row, i) == Ok::<Tick, Fault>(tick),
        0 <= c < columns.len(),
        0 <= i < array_ints(columns[c].1).len(),
    ensures
        is_first_named(columns, c, "seq"@) ==> entry_at(columns, c, i) == Some(tick.seq as int),
        is_first_named(columns, c, "ts_local"@) ==> entry_at(columns, c, i) == Some(
            tick.ts_local as int,
        ),
        is_first_named(columns, c, "flags"@) ==> entry_at(columns, c, i) == Some(
            tick.flags as int,
        ),
        is_not_named(columns, "seq"@) && first_row + i <= u64::MAX ==> tick.seq == first_row + i,
        is_not_named(columns, "ts_local"@) ==> tick.ts_local == 0,
        is_not_named(columns, "flags"@) ==> tick.flags == 0,
{
    law_columns_are_found_by_name(columns, c, "seq"@);
    law_columns_are_found_by_name(columns, c, "ts_local"@);
    law_columns_are_found_by_name(columns, c, "flags"@);
    if is_first_named(columns, c, "seq"@) {
        law_columns_are_read_as_they_are(columns, c, "seq"@, IntType::UInt64, i);
    }
    if is_first_named(columns, c, "ts_local"@) {
        law_columns_are_read_as_they_are(columns, c, "ts_local"@, IntType::Int64, i);
    }
    if is_first_named(columns, c, "flags"@) {
        law_columns_are_read_as_they_are(columns, c, "flags"@, IntType::UInt8, i);
    }
}

/// A side code stands for the side that has it, and no other number for any.
pub proof fn law_side_codes(code: int)
    ensures
        side_of(code) is Some <==> -1 <= code <= 1,
        side_of(code) matches Some(side) ==> side.code() == code,
{
}

} // verus!
