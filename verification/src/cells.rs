//! The values of a column of a batch, as plain values.

use arrow_array::cast::AsArray;
use arrow_array::types::{
    Date32Type, Date64Type, Int16Type, Int32Type, Int64Type, Int8Type, TimestampMicrosecondType,
    TimestampMillisecondType, TimestampNanosecondType, TimestampSecondType, UInt16Type, UInt32Type,
    UInt64Type, UInt8Type,
};
use arrow_array::Array;
use arrow_schema::{DataType, TimeUnit};

use crate::batch::{batch_rows, batch_width, Batch};
use crate::filter::FilterInput;
use crate::order::{key_count, SortKeys};
use crate::scalar::bool_key;
use vstd::prelude::*;

verus! {

/// The values of a column of truth values, row by row; none where it is another column.
pub uninterp spec fn boolean_cells(batch: Batch, column: int) -> Option<Seq<Option<bool>>>;

/// The values of a column of signed integers of any width.
pub uninterp spec fn signed_cells(batch: Batch, column: int) -> Option<Seq<Option<i64>>>;

/// The values of a column of unsigned integers of any width.
pub uninterp spec fn unsigned_cells(batch: Batch, column: int) -> Option<Seq<Option<u64>>>;

/// The values of a column of dates: days or milliseconds.
pub uninterp spec fn date_cells(batch: Batch, column: int) -> Option<Seq<Option<i64>>>;

/// The values of a column of points in time, in its own unit.
pub uninterp spec fn time_cells(batch: Batch, column: int) -> Option<Seq<Option<i64>>>;

/// The values of a column of texts with offsets of either width.
pub uninterp spec fn text_cells(batch: Batch, column: int) -> Option<Seq<Option<Seq<char>>>>;

/// Texts that may be missing.
pub open spec fn texts_of(values: Seq<Option<String>>) -> Seq<Option<Seq<char>>> {
    values.map_values(
        |value: Option<String>|
            match value {
                Some(text) => Some(text@),
                None => None,
            },
    )
}

/// `BooleanArray::iter` on a column of that type: the value of every row.
#[verifier::external_body]
fn read_booleans(batch: &Batch, column: usize) -> (cells: Option<Vec<Option<bool>>>)
    requires
        column < batch_width(*batch),
    ensures
        match cells {
            Some(values) => boolean_cells(*batch, column as int) == Some(values@) && values@.len()
                == batch_rows(*batch).len(),
            None => boolean_cells(*batch, column as int) is None,
        },
{
    batch.table.column(column).as_boolean_opt().map(|array| array.iter().collect())
}

/// `PrimitiveArray::iter` on a column of signed integers: the value of every row.
#[verifier::external_body]
fn read_signed(batch: &Batch, column: usize) -> (cells: Option<Vec<Option<i64>>>)
    requires
        column < batch_width(*batch),
    ensures
        match cells {
            Some(values) => signed_cells(*batch, column as int) == Some(values@) && values@.len()
                == batch_rows(*batch).len(),
            None => signed_cells(*batch, column as int) is None,
        },
{
    let array = batch.table.column(column);
    match array.data_type() {
        DataType::Int8 => Some(array.as_primitive::<Int8Type>().iter().map(|cell| cell.map(i64::from)).collect()),
        DataType::Int16 => Some(array.as_primitive::<Int16Type>().iter().map(|cell| cell.map(i64::from)).collect()),
        DataType::Int32 => Some(array.as_primitive::<Int32Type>().iter().map(|cell| cell.map(i64::from)).collect()),
        DataType::Int64 => Some(array.as_primitive::<Int64Type>().iter().collect()),
        _ => None,
    }
}

/// `PrimitiveArray::iter` on a column of unsigned integers: the value of every row.
#[verifier::external_body]
fn read_unsigned(batch: &Batch, column: usize) -> (cells: Option<Vec<Option<u64>>>)
    requires
        column < batch_width(*batch),
    ensures
        match cells {
            Some(values) => unsigned_cells(*batch, column as int) == Some(values@) && values@.len()
                == batch_rows(*batch).len(),
            None => unsigned_cells(*batch, column as int) is None,
        },
{
    let array = batch.table.column(column);
    match array.data_type() {
        DataType::UInt8 => Some(array.as_primitive::<UInt8Type>().iter().map(|cell| cell.map(u64::from)).collect()),
        DataType::UInt16 => Some(array.as_primitive::<UInt16Type>().iter().map(|cell| cell.map(u64::from)).collect()),
        DataType::UInt32 => Some(array.as_primitive::<UInt32Type>().iter().map(|cell| cell.map(u64::from)).collect()),
        DataType::UInt64 => Some(array.as_primitive::<UInt64Type>().iter().collect()),
        _ => None,
    }
}

/// `PrimitiveArray::iter` on a column of dates: the value of every row.
#[verifier::external_body]
fn read_dates(batch: &Batch, column: usize) -> (cells: Option<Vec<Option<i64>>>)
    requires
        column < batch_width(*batch),
    ensures
        match cells {
            Some(values) => date_cells(*batch, column as int) == Some(values@) && values@.len()
                == batch_rows(*batch).len(),
            None => date_cells(*batch, column as int) is None,
        },
{
    let array = batch.table.column(column);
    match array.data_type() {
        DataType::Date32 => Some(array.as_primitive::<Date32Type>().iter().map(|cell| cell.map(i64::from)).collect()),
        DataType::Date64 => Some(array.as_primitive::<Date64Type>().iter().collect()),
        _ => None,
    }
}

/// `PrimitiveArray::iter` on a column of points in time: the value of every row.
#[verifier::external_body]
fn read_times(batch: &Batch, column: usize) -> (cells: Option<Vec<Option<i64>>>)
    requires
        column < batch_width(*batch),
    ensures
        match cells {
            Some(values) => time_cells(*batch, column as int) == Some(values@) && values@.len()
                == batch_rows(*batch).len(),
            None => time_cells(*batch, column as int) is None,
        },
{
    let array = batch.table.column(column);
    match array.data_type() {
        DataType::Timestamp(TimeUnit::Second, _) => Some(array.as_primitive::<TimestampSecondType>().iter().collect()),
        DataType::Timestamp(TimeUnit::Millisecond, _) => Some(array.as_primitive::<TimestampMillisecondType>().iter().collect()),
        DataType::Timestamp(TimeUnit::Microsecond, _) => Some(array.as_primitive::<TimestampMicrosecondType>().iter().collect()),
        DataType::Timestamp(TimeUnit::Nanosecond, _) => Some(array.as_primitive::<TimestampNanosecondType>().iter().collect()),
        _ => None,
    }
}

/// `GenericStringArray::iter` on a column of texts: the value of every row.
#[verifier::external_body]
fn read_texts(batch: &Batch, column: usize) -> (cells: Option<Vec<Option<String>>>)
    requires
        column < batch_width(*batch),
    ensures
        match cells {
            Some(values) => text_cells(*batch, column as int) == Some(texts_of(values@))
                && values@.len() == batch_rows(*batch).len(),
            None => text_cells(*batch, column as int) is None,
        },
{
    let array = batch.table.column(column);
    match array.data_type() {
        DataType::Utf8 => Some(array.as_string::<i32>().iter().map(|text| text.map(str::to_owned)).collect()),
        DataType::LargeUtf8 => Some(array.as_string::<i64>().iter().map(|text| text.map(str::to_owned)).collect()),
        _ => None,
    }
}

/// The integers that truth values are ordered by.
pub open spec fn boolean_keys(values: Seq<Option<bool>>) -> Seq<Option<i64>> {
    values.map_values(
        |value: Option<bool>|
            match value {
                Some(truth) => Some(bool_key(truth) as i64),
                None => None,
            },
    )
}

/// The integers that unsigned integers are ordered by.
pub open spec fn unsigned_keys(values: Seq<Option<u64>>) -> Seq<Option<i64>> {
    values.map_values(
        |value: Option<u64>|
            match value {
                Some(number) => Some((number - 0x8000_0000_0000_0000) as i64),
                None => None,
            },
    )
}

/// The integers that the rows of a batch are ordered by under a column; none where it
/// holds no integers, dates, points in time or truth values.
pub open spec fn integer_keys(batch: Batch, column: int) -> Option<Seq<Option<i64>>> {
    if signed_cells(batch, column) is Some {
        signed_cells(batch, column)
    } else if let Some(values) = unsigned_cells(batch, column) {
        Some(unsigned_keys(values))
    } else if date_cells(batch, column) is Some {
        date_cells(batch, column)
    } else if time_cells(batch, column) is Some {
        time_cells(batch, column)
    } else if let Some(values) = boolean_cells(batch, column) {
        Some(boolean_keys(values))
    } else {
        None
    }
}

/// Whether `keys` are what the rows of a batch are ordered by under a column.
pub open spec fn keys_of_batch(keys: SortKeys, batch: Batch, column: int) -> bool {
    match keys {
        SortKeys::Integers(values) => integer_keys(batch, column) == Some(values@),
        SortKeys::Texts(values) => integer_keys(batch, column) is None && text_cells(batch, column)
            == Some(texts_of(values@)),
    }
}

fn keys_of_unsigned(values: &Vec<Option<u64>>) -> (keys: Vec<Option<i64>>)
    ensures
        keys@ == unsigned_keys(values@),
{
    let mut keys: Vec<Option<i64>> = Vec::new();
    let mut row: usize = 0;
    while row < values.len()
        invariant
            row <= values@.len(),
            keys@ == unsigned_keys(values@.take(row as int)),
        decreases values@.len() - row,
    {
        let key: Option<i64> = match values[row] {
            Some(number) => Some((number as i128 - 0x8000_0000_0000_0000i128) as i64),
            None => None,
        };
        keys.push(key);
        assert(keys@ =~= unsigned_keys(values@.take(row + 1)));
        row = row + 1;
    }
    assert(values@.take(row as int) =~= values@);
    keys
}

fn keys_of_booleans(values: &Vec<Option<bool>>) -> (keys: Vec<Option<i64>>)
    ensures
        keys@ == boolean_keys(values@),
{
    let mut keys: Vec<Option<i64>> = Vec::new();
    let mut row: usize = 0;
    while row < values.len()
        invariant
            row <= values@.len(),
            keys@ == boolean_keys(values@.take(row as int)),
        decreases values@.len() - row,
    {
        let key: Option<i64> = match values[row] {
            Some(truth) => Some(
                if truth {
                    1
                } else {
                    0
                },
            ),
            None => None,
        };
        keys.push(key);
        assert(keys@ =~= boolean_keys(values@.take(row + 1)));
        row = row + 1;
    }
    assert(values@.take(row as int) =~= values@);
    keys
}

/// What the rows of a batch are ordered by under a column; none where it holds
/// floating-point values, or values that have no order.
pub fn read_keys(batch: &Batch, column: usize) -> (keys: Option<SortKeys>)
    requires
        column < batch_width(*batch),
    ensures
        match keys {
            Some(keys) => keys_of_batch(keys, *batch, column as int) && key_count(keys)
                == batch_rows(*batch).len(),
            None => integer_keys(*batch, column as int) is None && text_cells(
                *batch,
                column as int,
            ) is None,
        },
{
    if let Some(values) = read_signed(batch, column) {
        return Some(SortKeys::Integers(values));
    }
    if let Some(values) = read_unsigned(batch, column) {
        return Some(SortKeys::Integers(keys_of_unsigned(&values)));
    }
    if let Some(values) = read_dates(batch, column) {
        return Some(SortKeys::Integers(values));
    }
    if let Some(values) = read_times(batch, column) {
        return Some(SortKeys::Integers(values));
    }
    if let Some(values) = read_booleans(batch, column) {
        return Some(SortKeys::Integers(keys_of_booleans(&values)));
    }
    match read_texts(batch, column) {
        Some(values) => Some(SortKeys::Texts(values)),
        None => None,
    }
}

/// Whether `input` is what a filter reads of a column of a batch.
pub open spec fn input_of_batch(input: FilterInput, batch: Batch, column: int) -> bool {
    match input {
        FilterInput::Booleans(values) => boolean_cells(batch, column) == Some(values@),
        FilterInput::Texts(values) => boolean_cells(batch, column) is None && text_cells(
            batch,
            column,
        ) == Some(texts_of(values@)),
        _ => false,
    }
}

/// What a filter reads of a column of truth values or texts; none where it is another
/// column.
pub fn read_input(batch: &Batch, column: usize) -> (input: Option<FilterInput>)
    requires
        column < batch_width(*batch),
    ensures
        match input {
            Some(input) => input_of_batch(input, *batch, column as int)
                && crate::filter::input_rows(input) == batch_rows(*batch).len(),
            None => boolean_cells(*batch, column as int) is None && text_cells(
                *batch,
                column as int,
            ) is None,
        },
{
    if let Some(values) = read_booleans(batch, column) {
        return Some(FilterInput::Booleans(values));
    }
    match read_texts(batch, column) {
        Some(values) => Some(FilterInput::Texts(values)),
        None => None,
    }
}

/// The keys that rows are sorted by stand to each other as the values of the column do:
/// unsigned integers by their numbers, false before true, and signed integers, dates and
/// points in time by theirs. A key is missing exactly where the value is.
pub proof fn law_batch_keys_order_as_values(
    batch: Batch,
    column: int,
    keys: Seq<Option<i64>>,
    i: int,
    j: int,
)
    requires
        integer_keys(batch, column) == Some(keys),
        0 <= i < keys.len(),
        0 <= j < keys.len(),
    ensures
        signed_cells(batch, column) matches Some(values) ==> keys == values,
        signed_cells(batch, column) is None ==> (unsigned_cells(batch, column) matches Some(values)
            ==> keys.len() == values.len() && (keys[i] is None <==> values[i] is None) && (
        values[i] is Some && values[j] is Some ==> (keys[i]->0 < keys[j]->0 <==> values[i]->0
            < values[j]->0) && (keys[i]->0 == keys[j]->0 <==> values[i]->0 == values[j]->0))),
        signed_cells(batch, column) is None && unsigned_cells(batch, column) is None ==> (date_cells(
            batch,
            column,
        ) matches Some(values) ==> keys == values),
        signed_cells(batch, column) is None && unsigned_cells(batch, column) is None && date_cells(
            batch,
            column,
        ) is None ==> (time_cells(batch, column) matches Some(values) ==> keys == values),
        signed_cells(batch, column) is None && unsigned_cells(batch, column) is None && date_cells(
            batch,
            column,
        ) is None && time_cells(batch, column) is None ==> (boolean_cells(
            batch,
            column,
        ) matches Some(values) ==> keys.len() == values.len() && (keys[i] is None <==> values[i] is None)
            && (values[i] is Some && values[j] is Some ==> (keys[i]->0 < keys[j]->0 <==> !values[i]->0
            && values[j]->0))),
{
}

} // verus!
