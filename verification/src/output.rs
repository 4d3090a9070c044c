//! Columns that aggregates are written to.

use crate::scalar::{
    column_rows, column_type, scalar_number, scalar_read, Column, FloatCell, Scalar, ScalarError,
    ScalarModel,
};
use crate::schema::{DataType, TimeUnit};
use vstd::prelude::*;

verus! {

/// The values of one output column, one per row; `None` is null.
#[derive(Debug)]
pub enum OutputColumn {
    Boolean(Vec<Option<bool>>),
    Int8(Vec<Option<i8>>),
    Int16(Vec<Option<i16>>),
    Int32(Vec<Option<i32>>),
    Int64(Vec<Option<i64>>),
    UInt8(Vec<Option<u8>>),
    UInt16(Vec<Option<u16>>),
    UInt32(Vec<Option<u32>>),
    UInt64(Vec<Option<u64>>),
    Float32(Vec<Option<FloatCell>>),
    Float64(Vec<Option<FloatCell>>),
    Utf8(Vec<Option<String>>),
    Date32(Vec<Option<i32>>),
    Date64(Vec<Option<i64>>),
    Timestamp(TimeUnit, Vec<Option<i64>>),
}

/// Why scalars cannot be written to a column.
#[derive(Clone, Copy, Debug, PartialEq, Eq, Structural)]
pub enum OutputError {
    /// A scalar is not of the type of the column.
    Mismatch,
    /// No aggregate gives values of this type.
    Unsupported(DataType),
}

/// A written value, as a mathematical value.
pub enum CellModel {
    Bool(bool),
    Int(int),
    Float(FloatCell),
    Text(Seq<char>),
}

/// The type of the values that the column holds.
pub open spec fn output_type(column: OutputColumn) -> DataType {
    match column {
        OutputColumn::Boolean(_) => DataType::Boolean,
        OutputColumn::Int8(_) => DataType::Int8,
        OutputColumn::Int16(_) => DataType::Int16,
        OutputColumn::Int32(_) => DataType::Int32,
        OutputColumn::Int64(_) => DataType::Int64,
        OutputColumn::UInt8(_) => DataType::UInt8,
        OutputColumn::UInt16(_) => DataType::UInt16,
        OutputColumn::UInt32(_) => DataType::UInt32,
        OutputColumn::UInt64(_) => DataType::UInt64,
        OutputColumn::Float32(_) => DataType::Float32,
        OutputColumn::Float64(_) => DataType::Float64,
        OutputColumn::Utf8(_) => DataType::Utf8,
        OutputColumn::Date32(_) => DataType::Date32,
        OutputColumn::Date64(_) => DataType::Date64,
        OutputColumn::Timestamp(unit, _) => DataType::Timestamp { unit, zoned: false },
    }
}

/// How many rows the column has.
pub open spec fn output_rows(column: OutputColumn) -> nat {
    match column {
        OutputColumn::Boolean(values) => values@.len(),
        OutputColumn::Int8(values) => values@.len(),
        OutputColumn::Int16(values) => values@.len(),
        OutputColumn::Int32(values) => values@.len(),
        OutputColumn::Int64(values) => values@.len(),
        OutputColumn::UInt8(values) => values@.len(),
        OutputColumn::UInt16(values) => values@.len(),
        OutputColumn::UInt32(values) => values@.len(),
        OutputColumn::UInt64(values) => values@.len(),
        OutputColumn::Float32(values) => values@.len(),
        OutputColumn::Float64(values) => values@.len(),
        OutputColumn::Utf8(values) => values@.len(),
        OutputColumn::Date32(values) => values@.len(),
        OutputColumn::Date64(values) => values@.len(),
        OutputColumn::Timestamp(_, values) => values@.len(),
    }
}

/// Whether the column holds `cell` in row `row`; `None` is null.
pub open spec fn output_holds(column: OutputColumn, row: int, cell: Option<CellModel>) -> bool {
    match column {
        OutputColumn::Boolean(values) => match cell {
            Some(CellModel::Bool(value)) => values@[row] == Some(value),
            Some(_) => false,
            None => values@[row] is None,
        },
        OutputColumn::Int8(values) => holds_int(values@[row] is Some, values@[row]->0 as int, cell),
        OutputColumn::Int16(values) => holds_int(
            values@[row] is Some,
            values@[row]->0 as int,
            cell,
        ),
        OutputColumn::Int32(values) => holds_int(
            values@[row] is Some,
            values@[row]->0 as int,
            cell,
        ),
        OutputColumn::Int64(values) => holds_int(
            values@[row] is Some,
            values@[row]->0 as int,
            cell,
        ),
        OutputColumn::UInt8(values) => holds_int(
            values@[row] is Some,
            values@[row]->0 as int,
            cell,
        ),
        OutputColumn::UInt16(values) => holds_int(
            values@[row] is Some,
            values@[row]->0 as int,
            cell,
        ),
        OutputColumn::UInt32(values) => holds_int(
            values@[row] is Some,
            values@[row]->0 as int,
            cell,
        ),
        OutputColumn::UInt64(values) => holds_int(
            values@[row] is Some,
            values@[row]->0 as int,
            cell,
        ),
        OutputColumn::Float32(values) => match cell {
            Some(CellModel::Float(value)) => values@[row] == Some(value),
            Some(_) => false,
            None => values@[row] is None,
        },
        OutputColumn::Float64(values) => match cell {
            Some(CellModel::Float(value)) => values@[row] == Some(value),
            Some(_) => false,
            None => values@[row] is None,
        },
        OutputColumn::Utf8(values) => match cell {
            Some(CellModel::Text(value)) => values@[row] is Some && values@[row]->0@ == value,
            Some(_) => false,
            None => values@[row] is None,
        },
        OutputColumn::Date32(values) => holds_int(
            values@[row] is Some,
            values@[row]->0 as int,
            cell,
        ),
        OutputColumn::Date64(values) => holds_int(
            values@[row] is Some,
            values@[row]->0 as int,
            cell,
        ),
        OutputColumn::Timestamp(_, values) => holds_int(
            values@[row] is Some,
            values@[row]->0 as int,
            cell,
        ),
    }
}

/// Whether an integer that may be missing is `cell`.
pub open spec fn holds_int(known: bool, value: int, cell: Option<CellModel>) -> bool {
    match cell {
        Some(CellModel::Int(expected)) => known && value == expected,
        Some(_) => false,
        None => !known,
    }
}

/// What a scalar becomes in a column of type `data_type`; integers keep the
/// bits that fit.
pub open spec fn written(data_type: DataType, scalar: ScalarModel) -> Option<CellModel> {
    match (data_type, scalar) {
        (DataType::Boolean, ScalarModel::Bool(value)) => Some(CellModel::Bool(value)),
        (DataType::Int8, ScalarModel::I64(value)) => Some(CellModel::Int((value as i8) as int)),
        (DataType::Int16, ScalarModel::I64(value)) => Some(CellModel::Int((value as i16) as int)),
        (DataType::Int32, ScalarModel::I64(value)) => Some(CellModel::Int((value as i32) as int)),
        (DataType::Int64, ScalarModel::I64(value)) => Some(CellModel::Int(value as int)),
        (DataType::UInt8, ScalarModel::U64(value)) => Some(CellModel::Int((value as u8) as int)),
        (DataType::UInt16, ScalarModel::U64(value)) => Some(CellModel::Int((value as u16) as int)),
        (DataType::UInt32, ScalarModel::U64(value)) => Some(CellModel::Int((value as u32) as int)),
        (DataType::UInt64, ScalarModel::U64(value)) => Some(CellModel::Int(value as int)),
        (DataType::Float32, _) => match scalar_number(scalar) {
            Some(cell) => Some(CellModel::Float(cell)),
            None => None,
        },
        (DataType::Float64, _) => match scalar_number(scalar) {
            Some(cell) => Some(CellModel::Float(cell)),
            None => None,
        },
        (DataType::Utf8, ScalarModel::Utf8(value)) => Some(CellModel::Text(value)),
        (DataType::Date32, ScalarModel::Date32(value)) => Some(CellModel::Int(value as int)),
        (DataType::Date64, ScalarModel::Date64(value)) => Some(CellModel::Int(value as int)),
        (
            DataType::Timestamp { zoned: false, .. },
            ScalarModel::Timestamp(value),
        ) => Some(CellModel::Int(value as int)),
        _ => None,
    }
}

/// Whether `value` is to be written as null.
pub open spec fn written_as_null(value: Option<Scalar>) -> bool {
    value is None || value->0@ == ScalarModel::Null
}

/// What stands in a column of type `data_type` for `value`.
pub open spec fn written_cell(data_type: DataType, value: Option<Scalar>) -> Option<CellModel> {
    if written_as_null(value) {
        None
    } else {
        written(data_type, value->0@)
    }
}

/// Whether a column of type `data_type` can hold `value`.
pub open spec fn writable(data_type: DataType, value: Option<Scalar>) -> bool {
    written_as_null(value) || written(data_type, value->0@) is Some
}

fn gather<T, F: Fn(&Scalar) -> Option<T>>(values: &Vec<Option<Scalar>>, pick: F) -> (result: Option<
    Vec<Option<T>>,
>)
    requires
        forall|scalar: &Scalar| #[trigger] pick.requires((scalar,)),
    ensures
        match result {
            Some(gathered) => {
                &&& gathered@.len() == values@.len()
                &&& forall|i: int|
                    0 <= i < values@.len() ==> if written_as_null(#[trigger] values@[i]) {
                        gathered@[i] is None
                    } else {
                        gathered@[i] is Some && pick.ensures((&values@[i]->0,), gathered@[i])
                    }
            },
            None => exists|i: int|
                0 <= i < values@.len() && !written_as_null(#[trigger] values@[i]) && pick.ensures(
                    (&values@[i]->0,),
                    None,
                ),
        },
{
    let mut gathered: Vec<Option<T>> = Vec::new();
    let mut i: usize = 0;
    while i < values.len()
        invariant
            i <= values@.len(),
            gathered@.len() == i,
            forall|scalar: &Scalar| #[trigger] pick.requires((scalar,)),
            forall|k: int|
                0 <= k < i ==> if written_as_null(#[trigger] values@[k]) {
                    gathered@[k] is None
                } else {
                    gathered@[k] is Some && pick.ensures((&values@[k]->0,), gathered@[k])
                },
        decreases values@.len() - i,
    {
        match &values[i] {
            None => gathered.push(None),
            Some(scalar) => {
                if scalar.is_null() {
                    gathered.push(None);
                } else {
                    match pick(scalar) {
                        Some(value) => gathered.push(Some(value)),
                        None => {
                            assert(!written_as_null(values@[i as int]));
                            return None;
                        },
                    }
                }
            },
        }
        i = i + 1;
    }
    Some(gathered)
}

fn signed(scalar: &Scalar) -> (value: Option<i64>)
    ensures
        value == match scalar@ {
            ScalarModel::I64(value) => Some(value),
            _ => None,
        },
{
    match scalar {
        Scalar::I64(value) => Some(*value),
        _ => None,
    }
}

fn unsigned(scalar: &Scalar) -> (value: Option<u64>)
    ensures
        value == match scalar@ {
            ScalarModel::U64(value) => Some(value),
            _ => None,
        },
{
    match scalar {
        Scalar::U64(value) => Some(*value),
        _ => None,
    }
}

fn number(scalar: &Scalar) -> (value: Option<FloatCell>)
    ensures
        value == scalar_number(scalar@),
{
    scalar.number()
}

fn truth(scalar: &Scalar) -> (value: Option<bool>)
    ensures
        value == match scalar@ {
            ScalarModel::Bool(value) => Some(value),
            _ => None,
        },
{
    match scalar {
        Scalar::Bool(value) => Some(*value),
        _ => None,
    }
}

fn text(scalar: &Scalar) -> (value: Option<String>)
    ensures
        match value {
            Some(text) => scalar@ == ScalarModel::Utf8(text@),
            None => !(scalar@ is Utf8),
        },
{
    match scalar {
        Scalar::Utf8(value) => Some(value.clone()),
        _ => None,
    }
}

fn day(scalar: &Scalar) -> (value: Option<i32>)
    ensures
        value == match scalar@ {
            ScalarModel::Date32(value) => Some(value),
            _ => None,
        },
{
    match scalar {
        Scalar::Date32(value) => Some(*value),
        _ => None,
    }
}

fn day_millis(scalar: &Scalar) -> (value: Option<i64>)
    ensures
        value == match scalar@ {
            ScalarModel::Date64(value) => Some(value),
            _ => None,
        },
{
    match scalar {
        Scalar::Date64(value) => Some(*value),
        _ => None,
    }
}

fn instant(scalar: &Scalar) -> (value: Option<i64>)
    ensures
        value == match scalar@ {
            ScalarModel::Timestamp(value) => Some(value),
            _ => None,
        },
{
    match scalar {
        Scalar::Timestamp(value) => Some(*value),
        _ => None,
    }
}

fn signed_8(scalar: &Scalar) -> (value: Option<i8>)
    ensures
        value == match scalar@ {
            ScalarModel::I64(value) => Some(value as i8),
            _ => None,
        },
{
    match scalar {
        Scalar::I64(value) => Some(*value as i8),
        _ => None,
    }
}

fn signed_16(scalar: &Scalar) -> (value: Option<i16>)
    ensures
        value == match scalar@ {
            ScalarModel::I64(value) => Some(value as i16),
            _ => None,
        },
{
    match scalar {
        Scalar::I64(value) => Some(*value as i16),
        _ => None,
    }
}

fn signed_32(scalar: &Scalar) -> (value: Option<i32>)
    ensures
        value == match scalar@ {
            ScalarModel::I64(value) => Some(value as i32),
            _ => None,
        },
{
    match scalar {
        Scalar::I64(value) => Some(*value as i32),
        _ => None,
    }
}

fn unsigned_8(scalar: &Scalar) -> (value: Option<u8>)
    ensures
        value == match scalar@ {
            ScalarModel::U64(value) => Some(value as u8),
            _ => None,
        },
{
    match scalar {
        Scalar::U64(value) => Some(*value as u8),
        _ => None,
    }
}

fn unsigned_16(scalar: &Scalar) -> (value: Option<u16>)
    ensures
        value == match scalar@ {
            ScalarModel::U64(value) => Some(value as u16),
            _ => None,
        },
{
    match scalar {
        Scalar::U64(value) => Some(*value as u16),
        _ => None,
    }
}

fn unsigned_32(scalar: &Scalar) -> (value: Option<u32>)
    ensures
        value == match scalar@ {
            ScalarModel::U64(value) => Some(value as u32),
            _ => None,
        },
{
    match scalar {
        Scalar::U64(value) => Some(*value as u32),
        _ => None,
    }
}

/// Writes scalars to a column of type `data_type`.
pub fn build_array(data_type: DataType, values: &Vec<Option<Scalar>>) -> (result: Result<
    OutputColumn,
    OutputError,
>)
    ensures
        match result {
            Ok(column) => {
                &&& data_type.comparable()
                &&& written_from(column, values@, data_type)
                &&& forall|row: int|
                    0 <= row < values@.len() ==> writable(data_type, #[trigger] values@[row])
            },
            Err(OutputError::Unsupported(unsupported)) => unsupported == data_type
                && !data_type.comparable(),
            Err(OutputError::Mismatch) => data_type.comparable() && exists|row: int|
                0 <= row < values@.len() && !writable(data_type, #[trigger] values@[row]),
        },
{
    let column: Option<OutputColumn> = match data_type {
        DataType::Boolean => match gather(values, truth) {
            Some(cells) => Some(OutputColumn::Boolean(cells)),
            None => None,
        },
        DataType::Int8 => match gather(values, signed_8) {
            Some(cells) => Some(OutputColumn::Int8(cells)),
            None => None,
        },
        DataType::Int16 => match gather(values, signed_16) {
            Some(cells) => Some(OutputColumn::Int16(cells)),
            None => None,
        },
        DataType::Int32 => match gather(values, signed_32) {
            Some(cells) => Some(OutputColumn::Int32(cells)),
            None => None,
        },
        DataType::Int64 => match gather(values, signed) {
            Some(cells) => Some(OutputColumn::Int64(cells)),
            None => None,
        },
        DataType::UInt8 => match gather(values, unsigned_8) {
            Some(cells) => Some(OutputColumn::UInt8(cells)),
            None => None,
        },
        DataType::UInt16 => match gather(values, unsigned_16) {
            Some(cells) => Some(OutputColumn::UInt16(cells)),
            None => None,
        },
        DataType::UInt32 => match gather(values, unsigned_32) {
            Some(cells) => Some(OutputColumn::UInt32(cells)),
            None => None,
        },
        DataType::UInt64 => match gather(values, unsigned) {
            Some(cells) => Some(OutputColumn::UInt64(cells)),
            None => None,
        },
        DataType::Float32 => match gather(values, number) {
            Some(cells) => Some(OutputColumn::Float32(cells)),
            None => None,
        },
        DataType::Float64 => match gather(values, number) {
            Some(cells) => Some(OutputColumn::Float64(cells)),
            None => None,
        },
        DataType::Utf8 => match gather(values, text) {
            Some(cells) => Some(OutputColumn::Utf8(cells)),
            None => None,
        },
        DataType::Date32 => match gather(values, day) {
            Some(cells) => Some(OutputColumn::Date32(cells)),
            None => None,
        },
        DataType::Date64 => match gather(values, day_millis) {
            Some(cells) => Some(OutputColumn::Date64(cells)),
            None => None,
        },
        DataType::Timestamp { unit, zoned: false } => match gather(values, instant) {
            Some(cells) => Some(OutputColumn::Timestamp(unit, cells)),
            None => None,
        },
        _ => return Err(OutputError::Unsupported(data_type)),
    };
    match column {
        Some(column) => Ok(column),
        None => Err(OutputError::Mismatch),
    }
}

/// Whether the column that is written holds what the column that is read holds: values
/// of the same type, and in every row the same one, or none.
pub open spec fn holds_the_same(output: OutputColumn, column: Column) -> bool {
    match (output, column) {
        (OutputColumn::Boolean(a), Column::Boolean(b)) => a@ == b@,
        (OutputColumn::Int8(a), Column::Int8(b)) => a@ == b@,
        (OutputColumn::Int16(a), Column::Int16(b)) => a@ == b@,
        (OutputColumn::Int32(a), Column::Int32(b)) => a@ == b@,
        (OutputColumn::Int64(a), Column::Int64(b)) => a@ == b@,
        (OutputColumn::UInt8(a), Column::UInt8(b)) => a@ == b@,
        (OutputColumn::UInt16(a), Column::UInt16(b)) => a@ == b@,
        (OutputColumn::UInt32(a), Column::UInt32(b)) => a@ == b@,
        (OutputColumn::UInt64(a), Column::UInt64(b)) => a@ == b@,
        (OutputColumn::Float32(a), Column::Float32(b)) => a@ == as_cells(b@),
        (OutputColumn::Float64(a), Column::Float64(b)) => a@ == as_cells(b@),
        (OutputColumn::Utf8(a), Column::Utf8(b)) => a@.len() == b@.len() && forall|row: int|
            0 <= row < a@.len() ==> ((#[trigger] a@[row]) is Some <==> b@[row] is Some) && (
            a@[row] is Some ==> a@[row]->0@ == b@[row]->0@),
        (OutputColumn::Date32(a), Column::Date32(b)) => a@ == b@,
        (OutputColumn::Date64(a), Column::Date64(b)) => a@ == b@,
        (OutputColumn::Timestamp(unit, a), Column::Timestamp(same_unit, b)) => unit == same_unit
            && a@ == b@,
        _ => false,
    }
}

/// Floating-point values by their bits, on their way to an output.
pub open spec fn as_cells(values: Seq<Option<u64>>) -> Seq<Option<FloatCell>> {
    values.map_values(
        |value: Option<u64>|
            match value {
                Some(bits) => Some(FloatCell::Bits(bits)),
                None => None,
            },
    )
}

/// Whether `values` are what is read from a column, row by row.
pub open spec fn read_from(
    values: Seq<Option<Scalar>>,
    column: Column,
    data_type: DataType,
) -> bool {
    values.len() == column_rows(column) && forall|row: int|
        0 <= row < values.len() ==> (#[trigger] values[row] matches Some(scalar) && scalar_read(
            column,
            row,
            data_type,
        ) == Ok::<ScalarModel, ScalarError>(scalar@))
}

/// Whether `output` is what comes of writing `values`.
pub open spec fn written_from(
    output: OutputColumn,
    values: Seq<Option<Scalar>>,
    data_type: DataType,
) -> bool {
    output_type(output) == data_type && output_rows(output) == values.len() && forall|row: int|
        0 <= row < values.len() ==> output_holds(
            output,
            row,
            written_cell(data_type, #[trigger] values[row]),
        )
}

/// What was read from a column can be written to one of its type.
pub proof fn law_read_values_can_be_written(
    column: Column,
    data_type: DataType,
    values: Seq<Option<Scalar>>,
)
    requires
        data_type.comparable(),
        column_type(column) == data_type,
        read_from(values, column, data_type),
    ensures
        forall|row: int| 0 <= row < values.len() ==> writable(data_type, #[trigger] values[row]),
{
}

/// What was read from a column and then written to one of its type is the same there,
/// nulls included: narrow integers and floating-point values come back unchanged.
pub proof fn law_written_values_are_those_read(
    column: Column,
    data_type: DataType,
    values: Seq<Option<Scalar>>,
    output: OutputColumn,
)
    requires
        data_type.comparable(),
        column_type(column) == data_type,
        read_from(values, column, data_type),
        written_from(output, values, data_type),
    ensures
        holds_the_same(output, column),
{
    match (output, column) {
        (OutputColumn::Boolean(a), Column::Boolean(b)) => {
            assert forall|row: int| 0 <= row < a@.len() implies a@[row] == b@[row] by {
                assert(values[row] is Some);
            }
            assert(a@ =~= b@);
        },
        (OutputColumn::Int8(a), Column::Int8(b)) => {
            assert forall|row: int| 0 <= row < a@.len() implies a@[row] == b@[row] by {
                assert(values[row] is Some);
            }
            assert(a@ =~= b@);
        },
        (OutputColumn::Int16(a), Column::Int16(b)) => {
            assert forall|row: int| 0 <= row < a@.len() implies a@[row] == b@[row] by {
                assert(values[row] is Some);
            }
            assert(a@ =~= b@);
        },
        (OutputColumn::Int32(a), Column::Int32(b)) => {
            assert forall|row: int| 0 <= row < a@.len() implies a@[row] == b@[row] by {
                assert(values[row] is Some);
            }
            assert(a@ =~= b@);
        },
        (OutputColumn::Int64(a), Column::Int64(b)) => {
            assert forall|row: int| 0 <= row < a@.len() implies a@[row] == b@[row] by {
                assert(values[row] is Some);
            }
            assert(a@ =~= b@);
        },
        (OutputColumn::UInt8(a), Column::UInt8(b)) => {
            assert forall|row: int| 0 <= row < a@.len() implies a@[row] == b@[row] by {
                assert(values[row] is Some);
            }
            assert(a@ =~= b@);
        },
        (OutputColumn::UInt16(a), Column::UInt16(b)) => {
            assert forall|row: int| 0 <= row < a@.len() implies a@[row] == b@[row] by {
                assert(values[row] is Some);
            }
            assert(a@ =~= b@);
        },
        (OutputColumn::UInt32(a), Column::UInt32(b)) => {
            assert forall|row: int| 0 <= row < a@.len() implies a@[row] == b@[row] by {
                assert(values[row] is Some);
            }
            assert(a@ =~= b@);
        },
        (OutputColumn::UInt64(a), Column::UInt64(b)) => {
            assert forall|row: int| 0 <= row < a@.len() implies a@[row] == b@[row] by {
                assert(values[row] is Some);
            }
            assert(a@ =~= b@);
        },
        (OutputColumn::Date32(a), Column::Date32(b)) => {
            assert forall|row: int| 0 <= row < a@.len() implies a@[row] == b@[row] by {
                assert(values[row] is Some);
            }
            assert(a@ =~= b@);
        },
        (OutputColumn::Date64(a), Column::Date64(b)) => {
            assert forall|row: int| 0 <= row < a@.len() implies a@[row] == b@[row] by {
                assert(values[row] is Some);
            }
            assert(a@ =~= b@);
        },
        (OutputColumn::Float32(a), Column::Float32(b)) => {
            assert forall|row: int| 0 <= row < a@.len() implies a@[row] == as_cells(b@)[row] by {
                assert(values[row] is Some);
            }
            assert(a@ =~= as_cells(b@));
        },
        (OutputColumn::Float64(a), Column::Float64(b)) => {
            assert forall|row: int| 0 <= row < a@.len() implies a@[row] == as_cells(b@)[row] by {
                assert(values[row] is Some);
            }
            assert(a@ =~= as_cells(b@));
        },
        (OutputColumn::Timestamp(_, a), Column::Timestamp(_, b)) => {
            assert forall|row: int| 0 <= row < a@.len() implies a@[row] == b@[row] by {
                assert(values[row] is Some);
            }
            assert(a@ =~= b@);
        },
        (OutputColumn::Utf8(a), Column::Utf8(b)) => {
            assert forall|row: int| 0 <= row < a@.len() implies ((#[trigger] a@[row]) is Some
                <==> b@[row] is Some) && (a@[row] is Some ==> a@[row]->0@ == b@[row]->0@) by {
                assert(values[row] is Some);
            }
        },
        _ => {},
    }
}

} // verus!
