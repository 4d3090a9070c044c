//! Single values of a column, their order, and the columns that they come from
//! and go to.

use crate::schema::{DataType, TimeUnit};
use crate::text::{
    byte_len, compare_text, lemma_text_before_irreflexive, lemma_text_before_total,
    lemma_text_before_transitive, same_text, text_order, utf8_len, Comparison,
};
use vstd::arithmetic::power2::{
    lemma_pow2_pos, lemma_pow2_strictly_increases, lemma_pow2_unfold, pow2,
};
use vstd::prelude::*;

verus! {

/// A value that aggregation groups by, compares or adds. A floating-point
/// value is held by its bits.
#[derive(Debug, PartialEq, Eq)]
pub enum Scalar {
    Null,
    Bool(bool),
    I64(i64),
    U64(u64),
    F64(u64),
    Utf8(String),
    Date32(i32),
    Date64(i64),
    Timestamp(i64),
}

/// What a scalar is, as a mathematical value.
pub enum ScalarModel {
    Null,
    Bool(bool),
    I64(i64),
    U64(u64),
    F64(u64),
    Utf8(Seq<char>),
    Date32(i32),
    Date64(i64),
    Timestamp(i64),
}

/// A number on its way to a floating-point sum or output.
#[derive(Clone, Copy, Debug, PartialEq, Eq, Structural)]
pub enum FloatCell {
    Bits(u64),
    Signed(i64),
    Unsigned(u64),
}

impl View for Scalar {
    type V = ScalarModel;

    open spec fn view(&self) -> ScalarModel {
        match self {
            Scalar::Null => ScalarModel::Null,
            Scalar::Bool(value) => ScalarModel::Bool(*value),
            Scalar::I64(value) => ScalarModel::I64(*value),
            Scalar::U64(value) => ScalarModel::U64(*value),
            Scalar::F64(value) => ScalarModel::F64(*value),
            Scalar::Utf8(value) => ScalarModel::Utf8(value@),
            Scalar::Date32(value) => ScalarModel::Date32(*value),
            Scalar::Date64(value) => ScalarModel::Date64(*value),
            Scalar::Timestamp(value) => ScalarModel::Timestamp(*value),
        }
    }
}

/// The memory that a retained scalar is charged for.
pub open spec fn scalar_bytes(scalar: ScalarModel) -> nat {
    match scalar {
        ScalarModel::Utf8(value) => 16 + byte_len(value),
        _ => 16,
    }
}

/// The number that a scalar adds to a floating-point sum.
pub open spec fn scalar_number(scalar: ScalarModel) -> Option<FloatCell> {
    match scalar {
        ScalarModel::F64(value) => Some(FloatCell::Bits(value)),
        ScalarModel::I64(value) => Some(FloatCell::Signed(value)),
        ScalarModel::U64(value) => Some(FloatCell::Unsigned(value)),
        _ => None,
    }
}

/// The place of a floating-point value, given by its bits, in the total order
/// of such values: negative ones by falling magnitude, then positive ones.
pub open spec fn float_key(bits: u64) -> int {
    if bits < 0x8000_0000_0000_0000u64 {
        bits as int
    } else {
        0x7FFF_FFFF_FFFF_FFFF - bits
    }
}

/// How two integers stand to each other.
pub open spec fn int_order(a: int, b: int) -> Comparison {
    if a < b {
        Comparison::Less
    } else if a == b {
        Comparison::Equal
    } else {
        Comparison::Greater
    }
}

/// 1 for true, 0 for false.
pub open spec fn bool_key(value: bool) -> int {
    if value {
        1
    } else {
        0
    }
}

/// The order of scalars of one type; scalars of different types count as equal.
pub open spec fn scalar_order(a: ScalarModel, b: ScalarModel) -> Comparison {
    match (a, b) {
        (ScalarModel::Bool(a), ScalarModel::Bool(b)) => int_order(bool_key(a), bool_key(b)),
        (ScalarModel::I64(a), ScalarModel::I64(b)) => int_order(a as int, b as int),
        (ScalarModel::U64(a), ScalarModel::U64(b)) => int_order(a as int, b as int),
        (ScalarModel::F64(a), ScalarModel::F64(b)) => int_order(float_key(a), float_key(b)),
        (ScalarModel::Utf8(a), ScalarModel::Utf8(b)) => text_order(a, b),
        (ScalarModel::Date32(a), ScalarModel::Date32(b)) => int_order(a as int, b as int),
        (ScalarModel::Date64(a), ScalarModel::Date64(b)) => int_order(a as int, b as int),
        (ScalarModel::Timestamp(a), ScalarModel::Timestamp(b)) => int_order(a as int, b as int),
        _ => Comparison::Equal,
    }
}

/// Whether two scalars are values of one type.
pub open spec fn same_kind(a: ScalarModel, b: ScalarModel) -> bool {
    match a {
        ScalarModel::Null => b is Null,
        ScalarModel::Bool(_) => b is Bool,
        ScalarModel::I64(_) => b is I64,
        ScalarModel::U64(_) => b is U64,
        ScalarModel::F64(_) => b is F64,
        ScalarModel::Utf8(_) => b is Utf8,
        ScalarModel::Date32(_) => b is Date32,
        ScalarModel::Date64(_) => b is Date64,
        ScalarModel::Timestamp(_) => b is Timestamp,
    }
}

/// Scalars of one type are ordered: none stands before or after itself, two stand to
/// each other the opposite ways round, and what is before, or after, carries on.
pub proof fn lemma_scalar_order(a: ScalarModel, b: ScalarModel, c: ScalarModel)
    requires
        same_kind(a, b),
        same_kind(b, c),
    ensures
        scalar_order(a, a) == Comparison::Equal,
        scalar_order(a, b) == Comparison::Less <==> scalar_order(b, a) == Comparison::Greater,
        scalar_order(a, b) == Comparison::Less && scalar_order(b, c) == Comparison::Less
            ==> scalar_order(a, c) == Comparison::Less,
        scalar_order(a, b) == Comparison::Greater && scalar_order(b, c) == Comparison::Greater
            ==> scalar_order(a, c) == Comparison::Greater,
{
    if let (ScalarModel::Utf8(x), ScalarModel::Utf8(y), ScalarModel::Utf8(z)) = (a, b, c) {
        lemma_text_before_irreflexive(x);
        lemma_text_before_total(x, y);
        lemma_text_before_total(y, z);
        lemma_text_before_total(x, z);
        if text_order(x, y) == Comparison::Less && text_order(y, z) == Comparison::Less {
            lemma_text_before_transitive(x, y, z);
        }
        if text_order(x, y) == Comparison::Greater && text_order(y, z) == Comparison::Greater {
            lemma_text_before_transitive(z, y, x);
        }
    }
}

fn order_i64(a: i64, b: i64) -> (order: Comparison)
    ensures
        order == int_order(a as int, b as int),
{
    if a < b {
        Comparison::Less
    } else if a == b {
        Comparison::Equal
    } else {
        Comparison::Greater
    }
}

fn order_u64(a: u64, b: u64) -> (order: Comparison)
    ensures
        order == int_order(a as int, b as int),
{
    if a < b {
        Comparison::Less
    } else if a == b {
        Comparison::Equal
    } else {
        Comparison::Greater
    }
}

/// The place of a floating-point value in the total order, as an integer.
pub fn float_rank(bits: u64) -> (rank: i64)
    ensures
        rank == float_key(bits),
{
    if bits < 0x8000_0000_0000_0000u64 {
        bits as i64
    } else {
        let magnitude: u64 = bits - 0x8000_0000_0000_0000u64;
        -1 - (magnitude as i64)
    }
}

/// How many of the least positive number make up the floating-point number with these
/// bits: the sign, then an exponent of 11 bits, then a fraction of 52 bits. An infinity
/// counts as the number that follows the greatest one, and what is no number as still
/// further out.
pub open spec fn float_units(bits: u64) -> int {
    let fraction = bits as int % 0x10_0000_0000_0000;
    let exponent = (bits as int / 0x10_0000_0000_0000) % 2048;
    let units = if exponent == 0 {
        fraction
    } else {
        (0x10_0000_0000_0000 + fraction) * pow2((exponent - 1) as nat)
    };
    if bits >= 0x8000_0000_0000_0000u64 {
        -units
    } else {
        units
    }
}

/// The units of a number that is not negative grow with its bits.
proof fn lemma_units_grow(a: u64, b: u64)
    requires
        a < b < 0x8000_0000_0000_0000u64,
    ensures
        0 <= float_units(a) < float_units(b),
{
    let whole: int = 0x10_0000_0000_0000;
    let (i, j) = (a as int / whole, b as int / whole);
    let (f, g) = (a as int % whole, b as int % whole);
    assert(i <= j);
    assert(i % 2048 == i && j % 2048 == j);
    if i == j {
        assert(f < g);
        if i > 0 {
            let scale = pow2((i - 1) as nat) as int;
            lemma_pow2_pos((i - 1) as nat);
            assert(0 <= (whole + f) * scale < (whole + g) * scale) by (nonlinear_arith)
                requires
                    0 < scale,
                    0 <= f < g,
                    0 < whole,
            ;
        }
    } else {
        let wide = pow2((j - 1) as nat) as int;
        lemma_pow2_pos((j - 1) as nat);
        assert((whole + g) * wide >= whole * wide) by (nonlinear_arith)
            requires
                0 < wide,
                0 <= g,
        ;
        if i == 0 {
            assert(whole * wide >= whole) by (nonlinear_arith)
                requires
                    0 < wide,
                    0 < whole,
            ;
        } else {
            let scale = pow2((i - 1) as nat) as int;
            lemma_pow2_pos((i - 1) as nat);
            lemma_pow2_unfold(i as nat);
            if i < j - 1 {
                lemma_pow2_strictly_increases(i as nat, (j - 1) as nat);
            }
            assert(2 * scale <= wide);
            assert(0 <= (whole + f) * scale < whole * wide) by (nonlinear_arith)
                requires
                    0 < scale,
                    2 * scale <= wide,
                    0 <= f < whole,
            ;
        }
    }
}

/// The key of a floating-point number grows with the number, whatever its sign: the
/// lesser number has the lesser key, and of two numbers the one with the lesser key is
/// not the greater one. Different bits have different keys; they stand for the same
/// number only where both are zero, and then the negative zero comes first.
pub proof fn law_float_key_orders_numbers(a: u64, b: u64)
    ensures
        float_units(a) < float_units(b) ==> float_key(a) < float_key(b),
        float_key(a) < float_key(b) ==> float_units(a) <= float_units(b),
        float_key(a) == float_key(b) <==> a == b,
        float_units(a) == float_units(b) && a != b ==> float_units(a) == 0,
        float_units(a) == 0 && float_units(b) == 0 && a > b ==> float_key(a) < float_key(b),
{
    let sign: u64 = 0x8000_0000_0000_0000u64;
    lemma_magnitudes(a);
    lemma_magnitudes(b);
    let x = magnitude(a);
    let y = magnitude(b);
    if x < y {
        lemma_units_grow(x, y);
    }
    if y < x {
        lemma_units_grow(y, x);
    }
}

/// The bits without the sign.
spec fn magnitude(bits: u64) -> u64 {
    if bits >= 0x8000_0000_0000_0000u64 {
        (bits - 0x8000_0000_0000_0000u64) as u64
    } else {
        bits
    }
}

proof fn lemma_magnitudes(bits: u64)
    ensures
        magnitude(bits) < 0x8000_0000_0000_0000u64,
        float_units(magnitude(bits)) >= 0,
        float_units(magnitude(bits)) == 0 <==> magnitude(bits) == 0,
        bits >= 0x8000_0000_0000_0000u64 ==> float_units(bits) == -float_units(magnitude(bits)),
{
    let whole: int = 0x10_0000_0000_0000;
    let rest = magnitude(bits);
    if bits >= 0x8000_0000_0000_0000u64 {
        assert(bits as int == rest as int + 2048 * whole);
        assert(bits as int / whole == rest as int / whole + 2048);
        assert(bits as int % whole == rest as int % whole);
        assert((bits as int / whole) % 2048 == (rest as int / whole) % 2048);
    }
    assert(float_units(0) == 0);
    if rest > 0 {
        lemma_units_grow(0, rest);
    }
}

/// The least bits of an infinity.
pub open spec fn infinity() -> u64 {
    0x7FF0_0000_0000_0000
}

/// Whether bits are those of a number: it lies between the two infinities.
pub open spec fn is_number_bits(bits: u64) -> bool {
    -float_units(infinity()) < float_units(bits) < float_units(infinity())
}

/// The bits of a number are those below the ones of an infinity, but for the sign.
pub proof fn lemma_number_bits(bits: u64)
    ensures
        is_number_bits(bits) <==> (bits as int / 0x10_0000_0000_0000) % 2048 != 2047,
{
    let whole: int = 0x10_0000_0000_0000;
    lemma_magnitudes(bits);
    let rest = magnitude(bits);
    let top = infinity();
    assert(rest as int / whole <= 2047);
    if bits >= 0x8000_0000_0000_0000u64 {
        assert(bits as int == rest as int + 2048 * whole);
        assert(bits as int / whole == rest as int / whole + 2048);
    }
    assert((bits as int / whole) % 2048 == rest as int / whole);
    if rest < top {
        lemma_units_grow(rest, top);
        assert(rest as int / whole < 2047);
    } else if rest > top {
        lemma_units_grow(top, rest);
        assert(rest as int / whole == 2047);
    }
}

/// Only the two zeros are no units away from zero.
pub proof fn lemma_zero_units(bits: u64)
    ensures
        float_units(bits) == 0 <==> bits % 0x8000_0000_0000_0000u64 == 0,
{
    lemma_magnitudes(bits);
}

/// Scalars of one type come in the order of what they hold: false before true, integers,
/// dates, timestamps and floating-point values by their numbers.
pub proof fn law_scalars_order_by_what_they_hold(
    flag: bool,
    i: i64,
    j: i64,
    m: u64,
    n: u64,
    d: i32,
    e: i32,
)
    ensures
        scalar_order(ScalarModel::Bool(false), ScalarModel::Bool(true)) == Comparison::Less,
        scalar_order(ScalarModel::Bool(flag), ScalarModel::Bool(flag)) == Comparison::Equal,
        scalar_order(ScalarModel::Bool(true), ScalarModel::Bool(false)) == Comparison::Greater,
        scalar_order(ScalarModel::I64(i), ScalarModel::I64(j)) is Less <==> i < j,
        scalar_order(ScalarModel::I64(i), ScalarModel::I64(j)) is Greater <==> i > j,
        scalar_order(ScalarModel::U64(m), ScalarModel::U64(n)) is Less <==> m < n,
        scalar_order(ScalarModel::U64(m), ScalarModel::U64(n)) is Greater <==> m > n,
        scalar_order(ScalarModel::Date32(d), ScalarModel::Date32(e)) is Less <==> d < e,
        scalar_order(ScalarModel::Date32(d), ScalarModel::Date32(e)) is Greater <==> d > e,
        scalar_order(ScalarModel::Date64(i), ScalarModel::Date64(j)) is Less <==> i < j,
        scalar_order(ScalarModel::Date64(i), ScalarModel::Date64(j)) is Greater <==> i > j,
        scalar_order(ScalarModel::Timestamp(i), ScalarModel::Timestamp(j)) is Less <==> i < j,
        scalar_order(ScalarModel::Timestamp(i), ScalarModel::Timestamp(j)) is Greater <==> i > j,
        float_units(m) < float_units(n) ==> scalar_order(ScalarModel::F64(m), ScalarModel::F64(n)) is Less,
        float_units(m) > float_units(n) ==> scalar_order(ScalarModel::F64(m), ScalarModel::F64(n)) is Greater,
        scalar_order(ScalarModel::F64(m), ScalarModel::F64(n)) is Equal <==> m == n,
{
    law_float_key_orders_numbers(m, n);
    law_float_key_orders_numbers(n, m);
}

/// Compares two scalars of one type.
pub fn scalar_compare(left: &Scalar, right: &Scalar) -> (order: Comparison)
    ensures
        order == scalar_order(left@, right@),
{
    match (left, right) {
        (Scalar::Bool(a), Scalar::Bool(b)) => order_u64(
            if *a {
                1
            } else {
                0
            },
            if *b {
                1
            } else {
                0
            },
        ),
        (Scalar::I64(a), Scalar::I64(b)) => order_i64(*a, *b),
        (Scalar::U64(a), Scalar::U64(b)) => order_u64(*a, *b),
        (Scalar::F64(a), Scalar::F64(b)) => order_i64(float_rank(*a), float_rank(*b)),
        (Scalar::Utf8(a), Scalar::Utf8(b)) => compare_text(a.as_str(), b.as_str()),
        (Scalar::Date32(a), Scalar::Date32(b)) => order_i64(*a as i64, *b as i64),
        (Scalar::Date64(a), Scalar::Date64(b)) => order_i64(*a, *b),
        (Scalar::Timestamp(a), Scalar::Timestamp(b)) => order_i64(*a, *b),
        _ => Comparison::Equal,
    }
}

impl Scalar {
    /// The memory that this scalar is charged for, where it can be counted.
    pub fn bytes(&self) -> (bytes: Option<usize>)
        ensures
            match bytes {
                Some(n) => n == scalar_bytes(self@),
                None => scalar_bytes(self@) > usize::MAX,
            },
    {
        match self {
            Scalar::Utf8(value) => utf8_len(value.as_str()).checked_add(16),
            _ => Some(16),
        }
    }

    pub fn is_null(&self) -> (null: bool)
        ensures
            null == (self@ == ScalarModel::Null),
    {
        matches!(self, Scalar::Null)
    }

    /// The number that this scalar adds to a floating-point sum.
    pub fn number(&self) -> (cell: Option<FloatCell>)
        ensures
            cell == scalar_number(self@),
    {
        match self {
            Scalar::F64(value) => Some(FloatCell::Bits(*value)),
            Scalar::I64(value) => Some(FloatCell::Signed(*value)),
            Scalar::U64(value) => Some(FloatCell::Unsigned(*value)),
            _ => None,
        }
    }

    /// A copy of this scalar.
    pub fn copy(&self) -> (copy: Self)
        ensures
            copy@ == self@,
    {
        match self {
            Scalar::Null => Scalar::Null,
            Scalar::Bool(value) => Scalar::Bool(*value),
            Scalar::I64(value) => Scalar::I64(*value),
            Scalar::U64(value) => Scalar::U64(*value),
            Scalar::F64(value) => Scalar::F64(*value),
            Scalar::Utf8(value) => Scalar::Utf8(value.clone()),
            Scalar::Date32(value) => Scalar::Date32(*value),
            Scalar::Date64(value) => Scalar::Date64(*value),
            Scalar::Timestamp(value) => Scalar::Timestamp(*value),
        }
    }

    /// Whether both are the same value.
    pub fn same_as(&self, other: &Self) -> (same: bool)
        ensures
            same == (self@ == other@),
    {
        match (self, other) {
            (Scalar::Null, Scalar::Null) => true,
            (Scalar::Bool(a), Scalar::Bool(b)) => *a == *b,
            (Scalar::I64(a), Scalar::I64(b)) => *a == *b,
            (Scalar::U64(a), Scalar::U64(b)) => *a == *b,
            (Scalar::F64(a), Scalar::F64(b)) => *a == *b,
            (Scalar::Utf8(a), Scalar::Utf8(b)) => same_text(a.as_str(), b.as_str()),
            (Scalar::Date32(a), Scalar::Date32(b)) => *a == *b,
            (Scalar::Date64(a), Scalar::Date64(b)) => *a == *b,
            (Scalar::Timestamp(a), Scalar::Timestamp(b)) => *a == *b,
            _ => false,
        }
    }
}

// ---------------------------------------------------------------------------
// Columns that scalars are read from
// ---------------------------------------------------------------------------

/// The values of one column, one per row; `None` is null. Floating-point
/// values are held by their bits in double precision.
#[derive(Debug)]
pub enum Column {
    Boolean(Vec<Option<bool>>),
    Int8(Vec<Option<i8>>),
    Int16(Vec<Option<i16>>),
    Int32(Vec<Option<i32>>),
    Int64(Vec<Option<i64>>),
    UInt8(Vec<Option<u8>>),
    UInt16(Vec<Option<u16>>),
    UInt32(Vec<Option<u32>>),
    UInt64(Vec<Option<u64>>),
    Float32(Vec<Option<u64>>),
    Float64(Vec<Option<u64>>),
    Utf8(Vec<Option<String>>),
    LargeUtf8(Vec<Option<String>>),
    Date32(Vec<Option<i32>>),
    Date64(Vec<Option<i64>>),
    Timestamp(TimeUnit, Vec<Option<i64>>),
    /// A column of another type: whether each row is null.
    Other(Vec<bool>),
}

/// Why a column gives no scalar.
#[derive(Clone, Copy, Debug, PartialEq, Eq, Structural)]
pub enum ScalarError {
    /// The column does not hold values of the expected type.
    Mismatch(DataType),
    /// No aggregate reads values of this type.
    Unsupported(DataType),
}

/// How many rows the column has.
pub open spec fn column_rows(column: Column) -> nat {
    match column {
        Column::Boolean(values) => values@.len(),
        Column::Int8(values) => values@.len(),
        Column::Int16(values) => values@.len(),
        Column::Int32(values) => values@.len(),
        Column::Int64(values) => values@.len(),
        Column::UInt8(values) => values@.len(),
        Column::UInt16(values) => values@.len(),
        Column::UInt32(values) => values@.len(),
        Column::UInt64(values) => values@.len(),
        Column::Float32(values) => values@.len(),
        Column::Float64(values) => values@.len(),
        Column::Utf8(values) => values@.len(),
        Column::LargeUtf8(values) => values@.len(),
        Column::Date32(values) => values@.len(),
        Column::Date64(values) => values@.len(),
        Column::Timestamp(_, values) => values@.len(),
        Column::Other(nulls) => nulls@.len(),
    }
}

/// The type of the values that the column holds.
pub open spec fn column_type(column: Column) -> DataType {
    match column {
        Column::Boolean(_) => DataType::Boolean,
        Column::Int8(_) => DataType::Int8,
        Column::Int16(_) => DataType::Int16,
        Column::Int32(_) => DataType::Int32,
        Column::Int64(_) => DataType::Int64,
        Column::UInt8(_) => DataType::UInt8,
        Column::UInt16(_) => DataType::UInt16,
        Column::UInt32(_) => DataType::UInt32,
        Column::UInt64(_) => DataType::UInt64,
        Column::Float32(_) => DataType::Float32,
        Column::Float64(_) => DataType::Float64,
        Column::Utf8(_) => DataType::Utf8,
        Column::LargeUtf8(_) => DataType::LargeUtf8,
        Column::Date32(_) => DataType::Date32,
        Column::Date64(_) => DataType::Date64,
        Column::Timestamp(unit, _) => DataType::Timestamp { unit, zoned: false },
        Column::Other(_) => DataType::Other,
    }
}

/// Whether row `row` of the column is null.
pub open spec fn null_at(column: Column, row: int) -> bool {
    match column {
        Column::Boolean(values) => values@[row] is None,
        Column::Int8(values) => values@[row] is None,
        Column::Int16(values) => values@[row] is None,
        Column::Int32(values) => values@[row] is None,
        Column::Int64(values) => values@[row] is None,
        Column::UInt8(values) => values@[row] is None,
        Column::UInt16(values) => values@[row] is None,
        Column::UInt32(values) => values@[row] is None,
        Column::UInt64(values) => values@[row] is None,
        Column::Float32(values) => values@[row] is None,
        Column::Float64(values) => values@[row] is None,
        Column::Utf8(values) => values@[row] is None,
        Column::LargeUtf8(values) => values@[row] is None,
        Column::Date32(values) => values@[row] is None,
        Column::Date64(values) => values@[row] is None,
        Column::Timestamp(_, values) => values@[row] is None,
        Column::Other(nulls) => nulls@[row],
    }
}

/// The scalar at row `row` of a column where it is not null.
pub open spec fn value_at(column: Column, row: int) -> ScalarModel {
    match column {
        Column::Boolean(values) => ScalarModel::Bool(values@[row]->0),
        Column::Int8(values) => ScalarModel::I64(values@[row]->0 as i64),
        Column::Int16(values) => ScalarModel::I64(values@[row]->0 as i64),
        Column::Int32(values) => ScalarModel::I64(values@[row]->0 as i64),
        Column::Int64(values) => ScalarModel::I64(values@[row]->0),
        Column::UInt8(values) => ScalarModel::U64(values@[row]->0 as u64),
        Column::UInt16(values) => ScalarModel::U64(values@[row]->0 as u64),
        Column::UInt32(values) => ScalarModel::U64(values@[row]->0 as u64),
        Column::UInt64(values) => ScalarModel::U64(values@[row]->0),
        Column::Float32(values) => ScalarModel::F64(values@[row]->0),
        Column::Float64(values) => ScalarModel::F64(values@[row]->0),
        Column::Utf8(values) => ScalarModel::Utf8(values@[row]->0@),
        Column::LargeUtf8(values) => ScalarModel::Utf8(values@[row]->0@),
        Column::Date32(values) => ScalarModel::Date32(values@[row]->0),
        Column::Date64(values) => ScalarModel::Date64(values@[row]->0),
        Column::Timestamp(_, values) => ScalarModel::Timestamp(values@[row]->0),
        Column::Other(_) => ScalarModel::Null,
    }
}

/// What an aggregate over values of type `data_type` reads at row `row`.
pub open spec fn scalar_read(column: Column, row: int, data_type: DataType) -> Result<
    ScalarModel,
    ScalarError,
> {
    if null_at(column, row) {
        Ok(ScalarModel::Null)
    } else if !data_type.comparable() {
        Err(ScalarError::Unsupported(data_type))
    } else if column_type(column) != data_type {
        Err(ScalarError::Mismatch(data_type))
    } else {
        Ok(value_at(column, row))
    }
}

impl Column {
    pub fn len(&self) -> (rows: usize)
        ensures
            rows == column_rows(*self),
    {
        match self {
            Column::Boolean(values) => values.len(),
            Column::Int8(values) => values.len(),
            Column::Int16(values) => values.len(),
            Column::Int32(values) => values.len(),
            Column::Int64(values) => values.len(),
            Column::UInt8(values) => values.len(),
            Column::UInt16(values) => values.len(),
            Column::UInt32(values) => values.len(),
            Column::UInt64(values) => values.len(),
            Column::Float32(values) => values.len(),
            Column::Float64(values) => values.len(),
            Column::Utf8(values) => values.len(),
            Column::LargeUtf8(values) => values.len(),
            Column::Date32(values) => values.len(),
            Column::Date64(values) => values.len(),
            Column::Timestamp(_, values) => values.len(),
            Column::Other(nulls) => nulls.len(),
        }
    }

    pub fn is_null(&self, row: usize) -> (null: bool)
        requires
            row < column_rows(*self),
        ensures
            null == null_at(*self, row as int),
    {
        match self {
            Column::Boolean(values) => values[row].is_none(),
            Column::Int8(values) => values[row].is_none(),
            Column::Int16(values) => values[row].is_none(),
            Column::Int32(values) => values[row].is_none(),
            Column::Int64(values) => values[row].is_none(),
            Column::UInt8(values) => values[row].is_none(),
            Column::UInt16(values) => values[row].is_none(),
            Column::UInt32(values) => values[row].is_none(),
            Column::UInt64(values) => values[row].is_none(),
            Column::Float32(values) => values[row].is_none(),
            Column::Float64(values) => values[row].is_none(),
            Column::Utf8(values) => values[row].is_none(),
            Column::LargeUtf8(values) => values[row].is_none(),
            Column::Date32(values) => values[row].is_none(),
            Column::Date64(values) => values[row].is_none(),
            Column::Timestamp(_, values) => values[row].is_none(),
            Column::Other(nulls) => nulls[row],
        }
    }

    pub fn data_type(&self) -> (data_type: DataType)
        ensures
            data_type == column_type(*self),
    {
        match self {
            Column::Boolean(_) => DataType::Boolean,
            Column::Int8(_) => DataType::Int8,
            Column::Int16(_) => DataType::Int16,
            Column::Int32(_) => DataType::Int32,
            Column::Int64(_) => DataType::Int64,
            Column::UInt8(_) => DataType::UInt8,
            Column::UInt16(_) => DataType::UInt16,
            Column::UInt32(_) => DataType::UInt32,
            Column::UInt64(_) => DataType::UInt64,
            Column::Float32(_) => DataType::Float32,
            Column::Float64(_) => DataType::Float64,
            Column::Utf8(_) => DataType::Utf8,
            Column::LargeUtf8(_) => DataType::LargeUtf8,
            Column::Date32(_) => DataType::Date32,
            Column::Date64(_) => DataType::Date64,
            Column::Timestamp(unit, _) => DataType::Timestamp { unit: *unit, zoned: false },
            Column::Other(_) => DataType::Other,
        }
    }

    fn value(&self, row: usize) -> (scalar: Scalar)
        requires
            row < column_rows(*self),
            !null_at(*self, row as int),
        ensures
            scalar@ == value_at(*self, row as int),
    {
        match self {
            Column::Boolean(values) => Scalar::Bool(values[row].unwrap()),
            Column::Int8(values) => Scalar::I64(values[row].unwrap() as i64),
            Column::Int16(values) => Scalar::I64(values[row].unwrap() as i64),
            Column::Int32(values) => Scalar::I64(values[row].unwrap() as i64),
            Column::Int64(values) => Scalar::I64(values[row].unwrap()),
            Column::UInt8(values) => Scalar::U64(values[row].unwrap() as u64),
            Column::UInt16(values) => Scalar::U64(values[row].unwrap() as u64),
            Column::UInt32(values) => Scalar::U64(values[row].unwrap() as u64),
            Column::UInt64(values) => Scalar::U64(values[row].unwrap()),
            Column::Float32(values) => Scalar::F64(values[row].unwrap()),
            Column::Float64(values) => Scalar::F64(values[row].unwrap()),
            Column::Utf8(values) => text_scalar(&values[row]),
            Column::LargeUtf8(values) => text_scalar(&values[row]),
            Column::Date32(values) => Scalar::Date32(values[row].unwrap()),
            Column::Date64(values) => Scalar::Date64(values[row].unwrap()),
            Column::Timestamp(_, values) => Scalar::Timestamp(values[row].unwrap()),
            Column::Other(_) => Scalar::Null,
        }
    }
}

fn text_scalar(value: &Option<String>) -> (scalar: Scalar)
    requires
        value is Some,
    ensures
        scalar@ == ScalarModel::Utf8(value->0@),
{
    match value {
        Some(text) => Scalar::Utf8(text.clone()),
        None => Scalar::Null,
    }
}

/// The value that an aggregate over values of type `data_type` reads.
pub fn scalar_at(column: &Column, row: usize, data_type: DataType) -> (result: Result<
    Scalar,
    ScalarError,
>)
    requires
        row < column_rows(*column),
    ensures
        match result {
            Ok(scalar) => scalar_read(*column, row as int, data_type) == Ok::<
                ScalarModel,
                ScalarError,
            >(scalar@),
            Err(error) => scalar_read(*column, row as int, data_type) == Err::<
                ScalarModel,
                ScalarError,
            >(error),
        },
{
    if column.is_null(row) {
        return Ok(Scalar::Null);
    }
    if !data_type.supports_min_max() {
        return Err(ScalarError::Unsupported(data_type));
    }
    if column.data_type() != data_type {
        return Err(ScalarError::Mismatch(data_type));
    }
    Ok(column.value(row))
}

/// What is read of a cell is what it holds: the same number, whatever its width, the same
/// text, the same truth value, the same point in time; and it is null where the cell is.
pub proof fn law_cells_are_read_as_they_are(column: Column, row: int)
    requires
        0 <= row < column_rows(column),
    ensures
        match (column, value_at(column, row)) {
            (Column::Boolean(values), ScalarModel::Bool(value)) => values@[row] matches Some(held)
                ==> held == value,
            (Column::Int8(values), ScalarModel::I64(value)) => values@[row] matches Some(held)
                ==> held == value,
            (Column::Int16(values), ScalarModel::I64(value)) => values@[row] matches Some(held)
                ==> held == value,
            (Column::Int32(values), ScalarModel::I64(value)) => values@[row] matches Some(held)
                ==> held == value,
            (Column::Int64(values), ScalarModel::I64(value)) => values@[row] matches Some(held)
                ==> held == value,
            (Column::UInt8(values), ScalarModel::U64(value)) => values@[row] matches Some(held)
                ==> held == value,
            (Column::UInt16(values), ScalarModel::U64(value)) => values@[row] matches Some(held)
                ==> held == value,
            (Column::UInt32(values), ScalarModel::U64(value)) => values@[row] matches Some(held)
                ==> held == value,
            (Column::UInt64(values), ScalarModel::U64(value)) => values@[row] matches Some(held)
                ==> held == value,
            (Column::Float32(values), ScalarModel::F64(bits)) => values@[row] matches Some(held)
                ==> held == bits,
            (Column::Float64(values), ScalarModel::F64(bits)) => values@[row] matches Some(held)
                ==> held == bits,
            (Column::Utf8(values), ScalarModel::Utf8(text)) => values@[row] matches Some(held)
                ==> held@ == text,
            (Column::LargeUtf8(values), ScalarModel::Utf8(text)) => values@[row] matches Some(held)
                ==> held@ == text,
            (Column::Date32(values), ScalarModel::Date32(value)) => values@[row] matches Some(held)
                ==> held == value,
            (Column::Date64(values), ScalarModel::Date64(value)) => values@[row] matches Some(held)
                ==> held == value,
            (Column::Timestamp(_, values), ScalarModel::Timestamp(value)) => values@[row] matches Some(
                held,
            ) ==> held == value,
            (Column::Other(_), _) => true,
            _ => false,
        },
        null_at(column, row) <==> match column {
            Column::Boolean(values) => values@[row] is None,
            Column::Int8(values) => values@[row] is None,
            Column::Int16(values) => values@[row] is None,
            Column::Int32(values) => values@[row] is None,
            Column::Int64(values) => values@[row] is None,
            Column::UInt8(values) => values@[row] is None,
            Column::UInt16(values) => values@[row] is None,
            Column::UInt32(values) => values@[row] is None,
            Column::UInt64(values) => values@[row] is None,
            Column::Float32(values) => values@[row] is None,
            Column::Float64(values) => values@[row] is None,
            Column::Utf8(values) => values@[row] is None,
            Column::LargeUtf8(values) => values@[row] is None,
            Column::Date32(values) => values@[row] is None,
            Column::Date64(values) => values@[row] is None,
            Column::Timestamp(_, values) => values@[row] is None,
            Column::Other(missing) => missing@[row],
        },
{
}

} // verus!
