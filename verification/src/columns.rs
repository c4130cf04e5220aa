//! Reading integer columns out of Arrow arrays.
use arrow::array::{make_array, Array, ArrayData, AsArray};
use arrow::compute::cast;
use arrow::datatypes::{DataType, Int64Type, Int8Type, UInt64Type};
use arrow::error::ArrowError;
use vstd::prelude::*;
use vstd::string::StringExecFns;

use crate::text::{same_text, views};
use crate::tick_source::{Fault, IntType, TickSourceError};

verus! {

/// `arrow::array::ArrayData`: one column of values.
#[verifier::external_type_specification]
#[verifier::external_body]
pub struct ExArrayData(arrow::array::ArrayData);

/// `arrow::error::ArrowError`, carried through as it is.
#[verifier::external_type_specification]
#[verifier::external_body]
pub struct ExArrowError(arrow::error::ArrowError);

/// The entries of an array, one for each row: `None` where the validity bitmap marks a
/// null, else the integer that is stored there. Of an array of another type only the
/// nulls mean something.
pub uninterp spec fn array_ints(a: ArrayData) -> Seq<Option<int>>;

/// The debug text of an array's data type, such as `Int64`.
pub uninterp spec fn array_type_text(a: ArrayData) -> Seq<char>;

/// `ArrayData::data_type`, as debug text.
#[verifier::external_body]
fn column_type_text(a: &ArrayData) -> (r: String)
    ensures
        r@ == array_type_text(*a),
{
    format!("{:?}", a.data_type())
}

/// `ArrayData::len`: the number of rows.
#[verifier::external_body]
fn column_len(a: &ArrayData) -> (r: usize)
    ensures
        r == array_ints(*a).len(),
{
    a.len()
}

/// Whether an entry is missing.
pub open spec fn has_null(entries: Seq<Option<int>>) -> bool {
    exists|i: int| 0 <= i < entries.len() && (#[trigger] entries[i]) is None
}

/// `ArrayData::null_count`: positive exactly where an entry is null.
#[verifier::external_body]
fn column_null_count(a: &ArrayData) -> (r: usize)
    ensures
        (r > 0) == has_null(array_ints(*a)),
{
    a.null_count()
}

impl IntType {
    /// Whether the type can hold a value.
    pub open spec fn holds(self, v: int) -> bool {
        match self {
            IntType::Int8 => i8::MIN <= v <= i8::MAX,
            IntType::Int64 => i64::MIN <= v <= i64::MAX,
            IntType::UInt64 => 0 <= v <= u64::MAX,
            IntType::UInt8 => 0 <= v <= u8::MAX,
        }
    }
}

/// An entry after a cast: a value that the type cannot hold becomes null.
pub open spec fn cast_entry(entry: Option<int>, target: IntType) -> Option<int> {
    match entry {
        Some(v) if target.holds(v) => Some(v),
        _ => None,
    }
}

/// The names of the integer types.
pub open spec fn is_integer_text(text: Seq<char>) -> bool {
    ||| text == "Int8"@
    ||| text == "Int16"@
    ||| text == "Int32"@
    ||| text == "Int64"@
    ||| text == "UInt8"@
    ||| text == "UInt16"@
    ||| text == "UInt32"@
    ||| text == "UInt64"@
}

/// `arrow::compute::cast` of an integer array to another integer type: it does not fail,
/// keeps each value that fits, and makes the others null. It is not used for `UInt8`.
#[verifier::external_body]
fn cast_column(a: &ArrayData, target: IntType) -> (r: Result<Vec<Option<i128>>, ArrowError>)
    requires
        is_integer_text(array_type_text(*a)),
        !(target is UInt8),
    ensures
        r matches Ok(v) && v@.len() == array_ints(*a).len() && forall|i: int|
            0 <= i < v@.len() ==> int_entry(#[trigger] v@[i]) == cast_entry(
                array_ints(*a)[i],
                target,
            ),
{
    let column = make_array(a.clone());
    Ok(match target {
        IntType::Int8 => cast(&column, &DataType::Int8)?.as_primitive::<Int8Type>().iter().map(
            |v| v.map(i128::from)).collect(),
        IntType::Int64 => cast(&column, &DataType::Int64)?.as_primitive::<Int64Type>().iter().map(
            |v| v.map(i128::from)).collect(),
        IntType::UInt64 | IntType::UInt8 => cast(&column, &DataType::UInt64)?.as_primitive::<
            UInt64Type>().iter().map(|v| v.map(i128::from)).collect(),
    })
}

/// `ArrowError::to_string`. Nothing is claimed of the text.
#[verifier::external_body]
pub(crate) fn error_text(e: &ArrowError) -> (r: String)
{
    e.to_string()
}

/// An entry as the integer it stands for.
pub open spec fn int_entry(entry: Option<i128>) -> Option<int> {
    match entry {
        Some(v) => Some(v as int),
        None => None,
    }
}

/// Whether every entry is a value that the type can hold.
pub open spec fn all_fit(entries: Seq<Option<int>>, target: IntType) -> bool {
    forall|i: int|
        0 <= i < entries.len() ==> (#[trigger] entries[i] matches Some(v) && target.holds(v))
}

/// What is wrong with a column that is to be read as integers of a type: it is no
/// integer column, it has nulls, or it has a value that the type cannot hold.
pub open spec fn column_fault(a: ArrayData, name: Seq<char>, target: IntType) -> Option<Fault> {
    if !is_integer_text(array_type_text(a)) {
        Some(Fault::NonIntegerColumn { name, data_type: array_type_text(a) })
    } else if has_null(array_ints(a)) {
        Some(Fault::NullColumn { name })
    } else if !all_fit(array_ints(a), target) {
        Some(Fault::OutOfRange { name, target_type: target })
    } else {
        None
    }
}

/// The values of a column without nulls.
pub open spec fn column_values(a: ArrayData) -> Seq<int> {
    array_ints(a).map_values(|entry: Option<int>| entry.unwrap())
}

fn is_integer_type(text: &str) -> (r: bool)
    ensures
        r == is_integer_text(text@),
{
    same_text(text, "Int8") || same_text(text, "Int16") || same_text(text, "Int32") || same_text(
        text,
        "Int64",
    ) || same_text(text, "UInt8") || same_text(text, "UInt16") || same_text(text, "UInt32")
        || same_text(text, "UInt64")
}

/// Refuses a column that is no integer column, or has nulls.
fn check_column(a: &ArrayData, name: &str) -> (r: Result<(), TickSourceError>)
    ensures
        match r {
            Ok(()) => is_integer_text(array_type_text(*a)) && !has_null(array_ints(*a)),
            Err(e) => forall|target: IntType| #[trigger]
                column_fault(*a, name@, target) == Some(e@),
        },
{
    let data_type: String = column_type_text(a);
    if !is_integer_type(data_type.as_str()) {
        return Err(TickSourceError::NonIntegerColumn { name: String::from_str(name), data_type });
    }
    if column_null_count(a) > 0 {
        return Err(TickSourceError::NullColumn { name: String::from_str(name) });
    }
    Ok(())
}

/// Reads an integer column whose values a type can hold.
fn read_ints(a: &ArrayData, name: &str, target: IntType) -> (r: Result<Vec<i128>, TickSourceError>)
    ensures
        match r {
            Ok(v) => {
                &&& column_fault(*a, name@, target) is None
                &&& v@.map_values(|x: i128| x as int) == column_values(*a)
                &&& forall|i: int| 0 <= i < v@.len() ==> target.holds(#[trigger] v@[i] as int)
            },
            Err(e) => column_fault(*a, name@, target) == Some(e@),
        },
{
    match check_column(a, name) {
        Ok(()) => {},
        Err(e) => {
            return Err(e);
        },
    }
    // A narrower type is tested here.
    let wide: IntType = match target {
        IntType::UInt8 => IntType::UInt64,
        _ => target,
    };
    let entries: Vec<Option<i128>> = match cast_column(a, wide) {
        Ok(entries) => entries,
        Err(e) => {
            return Err(
                TickSourceError::Cast {
                    name: String::from_str(name),
                    target_type: target,
                    source: error_text(&e),
                },
            );
        },
    };
    let mut values: Vec<i128> = Vec::new();
    let mut i: usize = 0;
    while i < entries.len()
        invariant
            i <= entries@.len(),
            values@.len() == i,
            entries@.len() == array_ints(*a).len(),
            !has_null(array_ints(*a)),
            is_integer_text(array_type_text(*a)),
            forall|j: int|
                0 <= j < entries@.len() ==> int_entry(#[trigger] entries@[j]) == cast_entry(
                    array_ints(*a)[j],
                    wide,
                ),
            wide == if target is UInt8 {
                IntType::UInt64
            } else {
                target
            },
            forall|j: int|
                0 <= j < i ==> array_ints(*a)[j] == Some(#[trigger] values@[j] as int)
                    && target.holds(values@[j] as int),
        decreases entries@.len() - i,
    {
        let fits: bool = match entries[i] {
            Some(v) => target != IntType::UInt8 || v <= 255,
            None => false,
        };
        if !fits {
            proof {
                assert(int_entry(entries@[i as int]) == cast_entry(
                    array_ints(*a)[i as int],
                    wide,
                ));
                assert(array_ints(*a)[i as int] is Some);
                assert(!all_fit(array_ints(*a), target));
            }
            return Err(
                TickSourceError::OutOfRange { name: String::from_str(name), target_type: target },
            );
        }
        if let Some(v) = entries[i] {
            assert(int_entry(entries@[i as int]) == Some(v as int));
            values.push(v);
        }
        i = i + 1;
    }
    proof {
        assert forall|j: int| 0 <= j < array_ints(*a).len() implies (
        #[trigger] array_ints(*a)[j] matches Some(v) && target.holds(v)) by {
            assert(array_ints(*a)[j] == Some(values@[j] as int));
        }
        assert(values@.map_values(|x: i128| x as int) =~= column_values(*a));
    }
    Ok(values)
}

/// Reads an integer column as `i64`.
pub fn read_i64(a: &ArrayData, name: &str) -> (r: Result<Vec<i64>, TickSourceError>)
    ensures
        match r {
            Ok(v) => {
                &&& column_fault(*a, name@, IntType::Int64) is None
                &&& v@.map_values(|x: i64| x as int) == column_values(*a)
            },
            Err(e) => column_fault(*a, name@, IntType::Int64) == Some(e@),
        },
{
    let wide: Vec<i128> = match read_ints(a, name, IntType::Int64) {
        Ok(wide) => wide,
        Err(e) => {
            return Err(e);
        },
    };
    let mut values: Vec<i64> = Vec::new();
    let mut i: usize = 0;
    while i < wide.len()
        invariant
            i <= wide@.len(),
            values@.len() == i,
            forall|j: int|
                0 <= j < wide@.len() ==> IntType::Int64.holds(#[trigger] wide@[j] as int),
            forall|j: int| 0 <= j < i ==> #[trigger] values@[j] == wide@[j],
        decreases wide@.len() - i,
    {
        assert(IntType::Int64.holds(wide@[i as int] as int));
        values.push(wide[i] as i64);
        i = i + 1;
    }
    assert(values@.map_values(|x: i64| x as int) =~= wide@.map_values(|x: i128| x as int));
    Ok(values)
}

/// Reads an integer column as `u64`.
pub fn read_u64(a: &ArrayData, name: &str) -> (r: Result<Vec<u64>, TickSourceError>)
    ensures
        match r {
            Ok(v) => {
                &&& column_fault(*a, name@, IntType::UInt64) is None
                &&& v@.map_values(|x: u64| x as int) == column_values(*a)
            },
            Err(e) => column_fault(*a, name@, IntType::UInt64) == Some(e@),
        },
{
    let wide: Vec<i128> = match read_ints(a, name, IntType::UInt64) {
        Ok(wide) => wide,
        Err(e) => {
            return Err(e);
        },
    };
    let mut values: Vec<u64> = Vec::new();
    let mut i: usize = 0;
    while i < wide.len()
        invariant
            i <= wide@.len(),
            values@.len() == i,
            forall|j: int|
                0 <= j < wide@.len() ==> IntType::UInt64.holds(#[trigger] wide@[j] as int),
            forall|j: int| 0 <= j < i ==> #[trigger] values@[j] == wide@[j],
        decreases wide@.len() - i,
    {
        assert(IntType::UInt64.holds(wide@[i as int] as int));
        values.push(wide[i] as u64);
        i = i + 1;
    }
    assert(values@.map_values(|x: u64| x as int) =~= wide@.map_values(|x: i128| x as int));
    Ok(values)
}

/// Reads an integer column as `u8`.
pub fn read_u8(a: &ArrayData, name: &str) -> (r: Result<Vec<u8>, TickSourceError>)
    ensures
        match r {
            Ok(v) => {
                &&& column_fault(*a, name@, IntType::UInt8) is None
                &&& v@.map_values(|x: u8| x as int) == column_values(*a)
            },
            Err(e) => column_fault(*a, name@, IntType::UInt8) == Some(e@),
        },
{
    let wide: Vec<i128> = match read_ints(a, name, IntType::UInt8) {
        Ok(wide) => wide,
        Err(e) => {
            return Err(e);
        },
    };
    let mut values: Vec<u8> = Vec::new();
    let mut i: usize = 0;
    while i < wide.len()
        invariant
            i <= wide@.len(),
            values@.len() == i,
            forall|j: int|
                0 <= j < wide@.len() ==> IntType::UInt8.holds(#[trigger] wide@[j] as int),
            forall|j: int| 0 <= j < i ==> #[trigger] values@[j] == wide@[j],
        decreases wide@.len() - i,
    {
        assert(IntType::UInt8.holds(wide@[i as int] as int));
        values.push(wide[i] as u8);
        i = i + 1;
    }
    assert(values@.map_values(|x: u8| x as int) =~= wide@.map_values(|x: i128| x as int));
    Ok(values)
}

/// Reads an integer column as `i8`.
pub fn read_i8(a: &ArrayData, name: &str) -> (r: Result<Vec<i8>, TickSourceError>)
    ensures
        match r {
            Ok(v) => {
                &&& column_fault(*a, name@, IntType::Int8) is None
                &&& v@.map_values(|x: i8| x as int) == column_values(*a)
            },
            Err(e) => column_fault(*a, name@, IntType::Int8) == Some(e@),
        },
{
    let wide: Vec<i128> = match read_ints(a, name, IntType::Int8) {
        Ok(wide) => wide,
        Err(e) => {
            return Err(e);
        },
    };
    let mut values: Vec<i8> = Vec::new();
    let mut i: usize = 0;
    while i < wide.len()
        invariant
            i <= wide@.len(),
            values@.len() == i,
            forall|j: int|
                0 <= j < wide@.len() ==> IntType::Int8.holds(#[trigger] wide@[j] as int),
            forall|j: int| 0 <= j < i ==> #[trigger] values@[j] == wide@[j],
        decreases wide@.len() - i,
    {
        assert(IntType::Int8.holds(wide@[i as int] as int));
        values.push(wide[i] as i8);
        i = i + 1;
    }
    assert(values@.map_values(|x: i8| x as int) =~= wide@.map_values(|x: i128| x as int));
    Ok(values)
}

/// A column and its name.
pub struct NamedColumn {
    pub name: String,
    pub data: ArrayData,
}

/// A table of columns of the same length.
pub struct ColumnBatch {
    columns: Vec<NamedColumn>,
    num_rows: usize,
}

/// The first column under a name.
pub open spec fn find_column(columns: Seq<(Seq<char>, ArrayData)>, name: Seq<char>) -> Option<
    ArrayData,
>
    decreases columns.len(),
{
    if columns.len() == 0 {
        None
    } else if columns[0].0 == name {
        Some(columns[0].1)
    } else {
        find_column(columns.drop_first(), name)
    }
}

/// The column under the first of several names that there is.
pub open spec fn find_any(
    columns: Seq<(Seq<char>, ArrayData)>,
    names: Seq<Seq<char>>,
) -> Option<ArrayData>
    decreases names.len(),
{
    if names.len() == 0 {
        None
    } else {
        match find_column(columns, names[0]) {
            Some(a) => Some(a),
            None => find_any(columns, names.drop_first()),
        }
    }
}

impl View for ColumnBatch {
    type V = Seq<(Seq<char>, ArrayData)>;

    closed spec fn view(&self) -> Seq<(Seq<char>, ArrayData)> {
        self.columns@.map_values(|c: NamedColumn| (c.name@, c.data))
    }
}

impl ColumnBatch {
    #[verifier::type_invariant]
    spec fn same_length(&self) -> bool {
        forall|i: int|
            0 <= i < self.columns@.len() ==> array_ints((#[trigger] self.columns@[i]).data).len()
                == self.num_rows
    }

    /// The number of rows.
    pub closed spec fn rows(&self) -> nat {
        self.num_rows as nat
    }

    /// A table of these columns; none where a column has another number of rows.
    pub fn try_new(columns: Vec<NamedColumn>, num_rows: usize) -> (r: Option<Self>)
        ensures
            r is Some <==> forall|i: int|
                0 <= i < columns@.len() ==> array_ints((#[trigger] columns@[i]).data).len()
                    == num_rows,
            r matches Some(batch) ==> batch.rows() == num_rows && batch@
                == columns@.map_values(|c: NamedColumn| (c.name@, c.data)),
    {
        let mut i: usize = 0;
        while i < columns.len()
            invariant
                i <= columns@.len(),
                forall|j: int|
                    0 <= j < i ==> array_ints((#[trigger] columns@[j]).data).len() == num_rows,
            decreases columns@.len() - i,
        {
            if column_len(&columns[i].data) != num_rows {
                return None;
            }
            i = i + 1;
        }
        Some(ColumnBatch { columns, num_rows })
    }

    pub fn num_rows(&self) -> (r: usize)
        ensures
            r == self.rows(),
    {
        self.num_rows
    }

    /// The first column under a name.
    pub fn column_by_name(&self, name: &str) -> (r: Option<&ArrayData>)
        ensures
            match r {
                Some(a) => find_column(self@, name@) == Some(*a) && array_ints(*a).len()
                    == self.rows(),
                None => find_column(self@, name@) is None,
            },
    {
        proof {
            use_type_invariant(self);
        }
        let ghost all = self@;
        let mut i: usize = 0;
        assert(all.skip(0) =~= all);
        while i < self.columns.len()
            invariant
                i <= self.columns@.len(),
                all == self@,
                self.same_length(),
                find_column(all, name@) == find_column(all.skip(i as int), name@),
            decreases self.columns@.len() - i,
        {
            proof {
                assert(all.skip(i as int)[0] == all[i as int]);
                assert(all.skip(i as int).drop_first() =~= all.skip(i + 1));
            }
            if same_text(self.columns[i].name.as_str(), name) {
                return Some(&self.columns[i].data);
            }
            i = i + 1;
        }
        None
    }

    /// The column under the first of several names that there is.
    pub fn required_column(&self, names: &Vec<&'static str>) -> (r: Result<
        &ArrayData,
        TickSourceError,
    >)
        ensures
            match r {
                Ok(a) => find_any(self@, name_views(names@)) == Some(*a) && array_ints(*a).len()
                    == self.rows(),
                Err(e) => {
                    &&& find_any(self@, name_views(names@)) is None
                    &&& e@ == (Fault::MissingColumn { names: name_views(names@) })
                },
            },
    {
        let ghost all = name_views(names@);
        let mut missing: Vec<String> = Vec::new();
        let mut i: usize = 0;
        assert(all.skip(0) =~= all);
        assert(views(missing@) =~= all.take(0));
        while i < names.len()
            invariant
                i <= names@.len(),
                all == name_views(names@),
                views(missing@) == all.take(i as int),
                find_any(self@, all) == find_any(self@, all.skip(i as int)),
            decreases names@.len() - i,
        {
            proof {
                assert(all.skip(i as int)[0] == all[i as int]);
                assert(all.skip(i as int).drop_first() =~= all.skip(i + 1));
            }
            if let Some(a) = self.column_by_name(names[i]) {
                return Ok(a);
            }
            let ghost before = missing@;
            missing.push(String::from_str(names[i]));
            proof {
                assert(views(missing@) =~= views(before).push(all[i as int]));
                assert(all.take(i + 1) =~= all.take(i as int).push(all[i as int]));
            }
            i = i + 1;
        }
        assert(all.take(i as int) =~= all);
        Err(TickSourceError::MissingColumn { names: missing })
    }
}

/// The values of a column that has to be there, under one of several names; errors name
/// the first.
pub open spec fn required_values(
    columns: Seq<(Seq<char>, ArrayData)>,
    names: Seq<Seq<char>>,
    target: IntType,
) -> Result<Seq<int>, Fault> {
    match find_any(columns, names) {
        None => Err(Fault::MissingColumn { names }),
        Some(a) => match column_fault(a, names[0], target) {
            Some(fault) => Err(fault),
            None => Ok(column_values(a)),
        },
    }
}

/// The values of a column that may be missing.
pub open spec fn optional_values(
    columns: Seq<(Seq<char>, ArrayData)>,
    name: Seq<char>,
    target: IntType,
) -> Result<Option<Seq<int>>, Fault> {
    match find_column(columns, name) {
        None => Ok(None),
        Some(a) => match column_fault(a, name, target) {
            Some(fault) => Err(fault),
            None => Ok(Some(column_values(a))),
        },
    }
}

pub open spec fn ints_of_i64(v: Seq<i64>) -> Seq<int> {
    v.map_values(|x: i64| x as int)
}

pub open spec fn ints_of_u64(v: Seq<u64>) -> Seq<int> {
    v.map_values(|x: u64| x as int)
}

pub open spec fn ints_of_u8(v: Seq<u8>) -> Seq<int> {
    v.map_values(|x: u8| x as int)
}

pub open spec fn ints_of_i8(v: Seq<i8>) -> Seq<int> {
    v.map_values(|x: i8| x as int)
}

impl ColumnBatch {
    pub fn required_i64(&self, names: &Vec<&'static str>) -> (r: Result<Vec<i64>, TickSourceError>)
        requires
            names@.len() > 0,
        ensures
            match r {
                Ok(v) => v@.len() == self.rows() && required_values(
                    self@,
                    name_views(names@),
                    IntType::Int64,
                ) == Ok::<Seq<int>, Fault>(ints_of_i64(v@)),
                Err(e) => required_values(self@, name_views(names@), IntType::Int64) == Err::<
                    Seq<int>,
                    Fault,
                >(e@),
            },
    {
        match self.required_column(names) {
            Ok(a) => match read_i64(a, names[0]) {
                Ok(v) => {
                    assert(ints_of_i64(v@).len() == column_values(*a).len());
                    Ok(v)
                },
                Err(e) => Err(e),
            },
            Err(e) => Err(e),
        }
    }

    pub fn required_u64(&self, names: &Vec<&'static str>) -> (r: Result<Vec<u64>, TickSourceError>)
        requires
            names@.len() > 0,
        ensures
            match r {
                Ok(v) => v@.len() == self.rows() && required_values(
                    self@,
                    name_views(names@),
                    IntType::UInt64,
                ) == Ok::<Seq<int>, Fault>(ints_of_u64(v@)),
                Err(e) => required_values(self@, name_views(names@), IntType::UInt64) == Err::<
                    Seq<int>,
                    Fault,
                >(e@),
            },
    {
        match self.required_column(names) {
            Ok(a) => match read_u64(a, names[0]) {
                Ok(v) => {
                    assert(ints_of_u64(v@).len() == column_values(*a).len());
                    Ok(v)
                },
                Err(e) => Err(e),
            },
            Err(e) => Err(e),
        }
    }

    pub fn required_i8(&self, names: &Vec<&'static str>) -> (r: Result<Vec<i8>, TickSourceError>)
        requires
            names@.len() > 0,
        ensures
            match r {
                Ok(v) => v@.len() == self.rows() && required_values(
                    self@,
                    name_views(names@),
                    IntType::Int8,
                ) == Ok::<Seq<int>, Fault>(ints_of_i8(v@)),
                Err(e) => required_values(self@, name_views(names@), IntType::Int8) == Err::<
                    Seq<int>,
                    Fault,
                >(e@),
            },
    {
        match self.required_column(names) {
            Ok(a) => match read_i8(a, names[0]) {
                Ok(v) => {
                    assert(ints_of_i8(v@).len() == column_values(*a).len());
                    Ok(v)
                },
                Err(e) => Err(e),
            },
            Err(e) => Err(e),
        }
    }

    pub fn optional_i64(&self, name: &str) -> (r: Result<Option<Vec<i64>>, TickSourceError>)
        ensures
            match r {
                Ok(Some(v)) => v@.len() == self.rows() && optional_values(
                    self@,
                    name@,
                    IntType::Int64,
                ) == Ok::<Option<Seq<int>>, Fault>(Some(ints_of_i64(v@))),
                Ok(None) => optional_values(self@, name@, IntType::Int64) == Ok::<
                    Option<Seq<int>>,
                    Fault,
                >(None),
                Err(e) => optional_values(self@, name@, IntType::Int64) == Err::<
                    Option<Seq<int>>,
                    Fault,
                >(e@),
            },
    {
        match self.column_by_name(name) {
            None => Ok(None),
            Some(a) => match read_i64(a, name) {
                Ok(v) => {
                    assert(ints_of_i64(v@).len() == column_values(*a).len());
                    Ok(Some(v))
                },
                Err(e) => Err(e),
            },
        }
    }

    pub fn optional_u64(&self, name: &str) -> (r: Result<Option<Vec<u64>>, TickSourceError>)
        ensures
            match r {
                Ok(Some(v)) => v@.len() == self.rows() && optional_values(
                    self@,
                    name@,
                    IntType::UInt64,
                ) == Ok::<Option<Seq<int>>, Fault>(Some(ints_of_u64(v@))),
                Ok(None) => optional_values(self@, name@, IntType::UInt64) == Ok::<
                    Option<Seq<int>>,
                    Fault,
                >(None),
                Err(e) => optional_values(self@, name@, IntType::UInt64) == Err::<
                    Option<Seq<int>>,
                    Fault,
                >(e@),
            },
    {
        match self.column_by_name(name) {
            None => Ok(None),
            Some(a) => match read_u64(a, name) {
                Ok(v) => {
                    assert(ints_of_u64(v@).len() == column_values(*a).len());
                    Ok(Some(v))
                },
                Err(e) => Err(e),
            },
        }
    }

    pub fn optional_u8(&self, name: &str) -> (r: Result<Option<Vec<u8>>, TickSourceError>)
        ensures
            match r {
                Ok(Some(v)) => v@.len() == self.rows() && optional_values(
                    self@,
                    name@,
                    IntType::UInt8,
                ) == Ok::<Option<Seq<int>>, Fault>(Some(ints_of_u8(v@))),
                Ok(None) => optional_values(self@, name@, IntType::UInt8) == Ok::<
                    Option<Seq<int>>,
                    Fault,
                >(None),
                Err(e) => optional_values(self@, name@, IntType::UInt8) == Err::<
                    Option<Seq<int>>,
                    Fault,
                >(e@),
            },
    {
        match self.column_by_name(name) {
            None => Ok(None),
            Some(a) => match read_u8(a, name) {
                Ok(v) => {
                    assert(ints_of_u8(v@).len() == column_values(*a).len());
                    Ok(Some(v))
                },
                Err(e) => Err(e),
            },
        }
    }
}

/// The values of a list of names.
pub open spec fn name_views(names: Seq<&'static str>) -> Seq<Seq<char>> {
    names.map_values(|n: &'static str| n@)
}

/// Whether a column is the first of its name.
pub open spec fn is_first_named(
    columns: Seq<(Seq<char>, ArrayData)>,
    c: int,
    name: Seq<char>,
) -> bool {
    &&& 0 <= c < columns.len()
    &&& columns[c].0 == name
    &&& forall|k: int| 0 <= k < c ==> (#[trigger] columns[k]).0 != name
}

/// Whether no column has a name.
pub open spec fn is_not_named(columns: Seq<(Seq<char>, ArrayData)>, name: Seq<char>) -> bool {
    forall|k: int| 0 <= k < columns.len() ==> (#[trigger] columns[k]).0 != name
}

/// A column is found by its name: the first that has it, and none where no column has it.
pub proof fn law_columns_are_found_by_name(
    columns: Seq<(Seq<char>, ArrayData)>,
    c: int,
    name: Seq<char>,
)
    ensures
        is_first_named(columns, c, name) ==> find_column(columns, name) == Some(columns[c].1),
        is_not_named(columns, name) ==> find_column(columns, name) is None,
    decreases columns.len(),
{
    if columns.len() > 0 {
        let rest = columns.drop_first();
        law_columns_are_found_by_name(rest, c - 1, name);
        if is_first_named(columns, c, name) && c > 0 {
            assert(columns[0].0 != name);
            assert forall|k: int| 0 <= k < c - 1 implies (#[trigger] rest[k]).0 != name by {
                assert(rest[k] == columns[k + 1]);
            }
        }
        if is_not_named(columns, name) {
            assert(columns[0].0 != name);
            assert forall|k: int| 0 <= k < rest.len() implies (#[trigger] rest[k]).0 != name by {
                assert(rest[k] == columns[k + 1]);
            }
        }
    }
}

/// A column that is read as a type gives its entries as they are, none missing, and all
/// within the type.
pub proof fn law_columns_are_read_as_they_are(
    columns: Seq<(Seq<char>, ArrayData)>,
    c: int,
    name: Seq<char>,
    target: IntType,
    i: int,
)
    requires
        is_first_named(columns, c, name),
        0 <= i < array_ints(columns[c].1).len(),
    ensures
        required_values(columns, seq![name], target) matches Ok(values) ==> array_ints(
            columns[c].1,
        )[i] == Some(values[i]) && target.holds(values[i]),
        optional_values(columns, name, target) matches Ok(values) ==> values is Some && array_ints(
            columns[c].1,
        )[i] == Some(values.unwrap()[i]) && target.holds(values.unwrap()[i]),
{
    law_columns_are_found_by_name(columns, c, name);
    let entries = array_ints(columns[c].1);
    assert(seq![name][0] == name);
    if column_fault(columns[c].1, name, target) is None {
        assert(entries[i] is Some);
    }
}

/// A column under one of two names is read under the first that there is.
pub proof fn law_columns_go_by_their_first_name(
    columns: Seq<(Seq<char>, ArrayData)>,
    c: int,
    name: Seq<char>,
    alias: Seq<char>,
    target: IntType,
    i: int,
)
    requires
        is_first_named(columns, c, name) || (is_not_named(columns, name) && is_first_named(
            columns,
            c,
            alias,
        )),
        0 <= i < array_ints(columns[c].1).len(),
    ensures
        required_values(columns, seq![name, alias], target) matches Ok(values) ==> array_ints(
            columns[c].1,
        )[i] == Some(values[i]) && target.holds(values[i]),
{
    let names = seq![name, alias];
    assert(names.drop_first()[0] == alias);
    law_columns_are_found_by_name(columns, c, name);
    law_columns_are_found_by_name(columns, c, alias);
    let entries = array_ints(columns[c].1);
    assert(names[0] == name);
    if is_not_named(columns, name) {
        assert(find_any(columns, names.drop_first()) == Some(columns[c].1));
    }
    assert(find_any(columns, names) == Some(columns[c].1));
    if column_fault(columns[c].1, name, target) is None {
        assert(entries[i] is Some);
    }
}

} // verus!
