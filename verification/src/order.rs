//! The order of rows under one sort key.

use std::sync::Arc;

use arrow_array::{ArrayRef, Int64Array, LargeStringArray, UInt64Array};
use arrow_ord::sort::{lexsort_to_indices, SortColumn};
use arrow_schema::{ArrowError, SortOptions};

use crate::scalar::{
    bool_key, column_rows, float_key, float_rank, int_order, scalar_order, value_at, Column,
    ScalarModel,
};
use crate::sort::{NullOrder, SortDirection, SortSpec};
use crate::text::{text_order, Comparison};
use vstd::prelude::*;

verus! {

/// The sort keys of all rows; `None` is null.
#[derive(Debug)]
pub enum SortKeys {
    Integers(Vec<Option<i64>>),
    Texts(Vec<Option<String>>),
}

/// How two keys stand to each other, given how their values do and which of
/// them are null.
pub open spec fn key_order(
    left_null: bool,
    right_null: bool,
    values: Comparison,
    descending: bool,
    nulls_first: bool,
) -> Comparison {
    if left_null && right_null {
        Comparison::Equal
    } else if left_null {
        if nulls_first {
            Comparison::Less
        } else {
            Comparison::Greater
        }
    } else if right_null {
        if nulls_first {
            Comparison::Greater
        } else {
            Comparison::Less
        }
    } else if descending {
        match values {
            Comparison::Less => Comparison::Greater,
            Comparison::Equal => Comparison::Equal,
            Comparison::Greater => Comparison::Less,
        }
    } else {
        values
    }
}

/// How the integer keys of rows `i` and `j` stand to each other.
pub open spec fn integer_order(
    keys: Seq<Option<i64>>,
    i: int,
    j: int,
    descending: bool,
    nulls_first: bool,
) -> Comparison {
    key_order(
        keys[i] is None,
        keys[j] is None,
        int_order(keys[i]->0 as int, keys[j]->0 as int),
        descending,
        nulls_first,
    )
}

/// How the text keys of rows `i` and `j` stand to each other.
pub open spec fn text_key_order(
    keys: Seq<Option<String>>,
    i: int,
    j: int,
    descending: bool,
    nulls_first: bool,
) -> Comparison {
    key_order(
        keys[i] is None,
        keys[j] is None,
        text_order(keys[i]->0@, keys[j]->0@),
        descending,
        nulls_first,
    )
}

/// Whether a row comes before another one: by its key, or, where the keys are
/// equal, by its place in the input.
pub open spec fn comes_before(order: Comparison, i: int, j: int) -> bool {
    order == Comparison::Less || (order == Comparison::Equal && i < j)
}

/// Whether `order` names each of `count` rows once.
pub open spec fn names_rows_once(order: Seq<u32>, count: nat) -> bool {
    order.len() == count && order.no_duplicates() && forall|k: int|
        0 <= k < order.len() ==> order[k] < count
}

/// How many rows there are keys for.
pub open spec fn key_count(keys: SortKeys) -> nat {
    match keys {
        SortKeys::Integers(values) => values@.len(),
        SortKeys::Texts(values) => values@.len(),
    }
}

/// How the keys of rows `i` and `j` stand to each other.
pub open spec fn row_order(
    keys: SortKeys,
    i: int,
    j: int,
    descending: bool,
    nulls_first: bool,
) -> Comparison {
    match keys {
        SortKeys::Integers(values) => integer_order(values@, i, j, descending, nulls_first),
        SortKeys::Texts(values) => text_key_order(values@, i, j, descending, nulls_first),
    }
}

/// Whether `order` is the order of the rows under the sort key: every row
/// once, and of any two the one that comes before the other first.
pub open spec fn is_sorted_order(
    order: Seq<u32>,
    keys: SortKeys,
    descending: bool,
    nulls_first: bool,
) -> bool {
    names_rows_once(order, key_count(keys)) && forall|a: int, b: int|
        #![trigger order[a], order[b]]
        0 <= a < b < order.len() ==> comes_before(
            row_order(keys, order[a] as int, order[b] as int, descending, nulls_first),
            order[a] as int,
            order[b] as int,
        )
}

/// How one sort column is ordered.
#[derive(Clone, Copy, Debug, PartialEq, Eq, Structural)]
pub struct ColumnOrder {
    pub descending: bool,
    pub nulls_first: bool,
}

/// Whether a row may stand before another one: by the first sort column, or, where
/// that does not tell them apart, by the second.
pub open spec fn may_precede(first: Comparison, second: Comparison) -> bool {
    first == Comparison::Less || (first == Comparison::Equal && second != Comparison::Greater)
}

/// How the numbers of rows `i` and `j` stand to each other.
pub open spec fn number_order(
    numbers: Seq<u64>,
    i: int,
    j: int,
    order: ColumnOrder,
) -> Comparison {
    key_order(
        false,
        false,
        int_order(numbers[i] as int, numbers[j] as int),
        order.descending,
        order.nulls_first,
    )
}

/// `lexsort_to_indices` on a column of keys and a column of numbers: every row number
/// once, ordered by the first column, and by the second where the first does not tell
/// two rows apart. Nulls are placed as asked; texts are compared by their UTF-8 bytes.
#[verifier::external_body]
fn lexsort_rows(
    keys: &SortKeys,
    key_order: ColumnOrder,
    numbers: &Vec<u64>,
    number_order: ColumnOrder,
) -> (result: Result<Vec<u32>, ArrowError>)
    requires
        key_count(*keys) == numbers@.len(),
        key_count(*keys) <= u32::MAX,
    ensures
        result is Ok,
        names_rows_once(result->Ok_0@, key_count(*keys)),
        forall|a: int, b: int|
            #![trigger result->Ok_0@[a], result->Ok_0@[b]]
            0 <= a < b < result->Ok_0@.len() ==> may_precede(
                row_order(
                    *keys,
                    result->Ok_0@[a] as int,
                    result->Ok_0@[b] as int,
                    key_order.descending,
                    key_order.nulls_first,
                ),
                self::number_order(
                    numbers@,
                    result->Ok_0@[a] as int,
                    result->Ok_0@[b] as int,
                    number_order,
                ),
            ),
{
    let keys: ArrayRef = match keys {
        SortKeys::Integers(keys) => Arc::new(Int64Array::from(keys.clone())),
        SortKeys::Texts(keys) => Arc::new(LargeStringArray::from(keys.clone())),
    };
    let numbers: ArrayRef = Arc::new(UInt64Array::from(numbers.clone()));
    let columns = [(keys, key_order), (numbers, number_order)].map(|(values, order)| SortColumn {
        values,
        options: Some(SortOptions {
            descending: order.descending,
            nulls_first: order.nulls_first,
        }),
    });
    lexsort_to_indices(&columns, None).map(|order| order.values().to_vec())
}

fn count_keys(keys: &SortKeys) -> (count: usize)
    ensures
        count == key_count(*keys),
{
    match keys {
        SortKeys::Integers(values) => values.len(),
        SortKeys::Texts(values) => values.len(),
    }
}

/// The order of the rows under the sort key. Rows with equal keys keep their places:
/// they are ordered by their numbers.
pub fn sorted_order(keys: &SortKeys, spec: SortSpec) -> (result: Result<Vec<u32>, ArrowError>)
    requires
        key_count(*keys) <= u32::MAX,
    ensures
        result matches Ok(order) && is_sorted_order(
            order@,
            *keys,
            spec.direction == SortDirection::Descending,
            spec.nulls == NullOrder::First,
        ),
{
    let count: usize = count_keys(keys);
    let mut numbers: Vec<u64> = Vec::new();
    let mut row: usize = 0;
    while row < count
        invariant
            row <= count,
            numbers@.len() == row,
            forall|k: int| 0 <= k < row ==> #[trigger] numbers@[k] == k,
        decreases count - row,
    {
        numbers.push(row as u64);
        row = row + 1;
    }
    lexsort_rows(
        keys,
        ColumnOrder {
            descending: spec.direction == SortDirection::Descending,
            nulls_first: spec.nulls == NullOrder::First,
        },
        &numbers,
        ColumnOrder { descending: false, nulls_first: false },
    )
}

/// The order of rows is determined by their keys: there is only one.
pub proof fn law_sorted_order_is_unique(
    a: Seq<u32>,
    b: Seq<u32>,
    keys: SortKeys,
    descending: bool,
    nulls_first: bool,
)
    requires
        key_count(keys) <= u32::MAX,
        is_sorted_order(a, keys, descending, nulls_first),
        is_sorted_order(b, keys, descending, nulls_first),
    ensures
        a == b,
{
    lemma_orders_agree(a, b, keys, descending, nulls_first, 0);
    assert(a =~= b);
}

proof fn lemma_row_order_flips(
    keys: SortKeys,
    i: int,
    j: int,
    descending: bool,
    nulls_first: bool,
)
    requires
        comes_before(row_order(keys, i, j, descending, nulls_first), i, j),
        i != j,
    ensures
        !comes_before(row_order(keys, j, i, descending, nulls_first), j, i),
{
    match keys {
        SortKeys::Integers(_) => {},
        SortKeys::Texts(values) => {
            crate::text::lemma_text_before_total(values@[i]->0@, values@[j]->0@);
            crate::text::lemma_text_before_irreflexive(values@[i]->0@);
        },
    }
}

pub(crate) proof fn lemma_named_somewhere(order: Seq<u32>, count: nat, row: u32) -> (at: int)
    requires
        count <= u32::MAX,
        names_rows_once(order, count),
        row < count,
    ensures
        0 <= at < order.len() && order[at] == row,
{
    let all = Set::<u32>::new(|r: u32| r < count);
    let named = order.to_set();
    order.unique_seq_to_set();
    vstd::seq_lib::seq_to_set_is_finite(order);
    lemma_rows_below(count);
    assert(named.subset_of(all)) by {
        assert forall|r: u32| named.contains(r) implies all.contains(r) by {
            let k = choose|k: int| 0 <= k < order.len() && order[k] == r;
            assert(order[k] < count);
        }
    }
    vstd::set_lib::lemma_subset_equality(named, all);
    assert(named.contains(row));
    choose|k: int| 0 <= k < order.len() && order[k] == row
}

proof fn lemma_rows_below(count: nat)
    requires
        count <= u32::MAX,
    ensures
        Set::<u32>::new(|r: u32| r < count).finite(),
        Set::<u32>::new(|r: u32| r < count).len() == count,
    decreases count,
{
    let all = Set::<u32>::new(|r: u32| r < count);
    if count == 0 {
        assert(all =~= Set::empty());
    } else {
        let fewer = (count - 1) as nat;
        lemma_rows_below(fewer);
        assert(all =~= Set::<u32>::new(|r: u32| r < fewer).insert((count - 1) as u32));
    }
}

proof fn lemma_orders_agree(
    a: Seq<u32>,
    b: Seq<u32>,
    keys: SortKeys,
    descending: bool,
    nulls_first: bool,
    from: int,
)
    requires
        key_count(keys) <= u32::MAX,
        is_sorted_order(a, keys, descending, nulls_first),
        is_sorted_order(b, keys, descending, nulls_first),
        0 <= from <= a.len(),
        forall|k: int| 0 <= k < from ==> a[k] == b[k],
    ensures
        forall|k: int| 0 <= k < a.len() ==> a[k] == b[k],
    decreases a.len() - from,
{
    if from < a.len() {
        let count = key_count(keys);
        if a[from] != b[from] {
            let i = lemma_named_somewhere(b, count, a[from]);
            let j = lemma_named_somewhere(a, count, b[from]);
            assert(i >= from) by {
                if i < from {
                    assert(a[i] == b[i]);
                    assert(a[i] != a[from]);
                }
            }
            assert(j >= from) by {
                if j < from {
                    assert(a[j] == b[j]);
                    assert(b[j] != b[from]);
                }
            }
            assert(comes_before(
                row_order(keys, a[from] as int, a[j] as int, descending, nulls_first),
                a[from] as int,
                a[j] as int,
            ));
            assert(comes_before(
                row_order(keys, b[from] as int, b[i] as int, descending, nulls_first),
                b[from] as int,
                b[i] as int,
            ));
            lemma_row_order_flips(
                keys,
                a[from] as int,
                b[from] as int,
                descending,
                nulls_first,
            );
        }
        lemma_orders_agree(a, b, keys, descending, nulls_first, from + 1);
    }
}

// ---------------------------------------------------------------------------
// Keys from columns
// ---------------------------------------------------------------------------

/// The integer that stands for a scalar in the order of its type.
pub open spec fn integer_key(scalar: ScalarModel) -> int {
    match scalar {
        ScalarModel::Bool(value) => bool_key(value),
        ScalarModel::I64(value) => value as int,
        ScalarModel::U64(value) => value - 0x8000_0000_0000_0000,
        ScalarModel::F64(bits) => float_key(bits),
        ScalarModel::Date32(value) => value as int,
        ScalarModel::Date64(value) => value as int,
        ScalarModel::Timestamp(value) => value as int,
        _ => 0,
    }
}

/// Whether `keys` are the sort keys of the column.
pub open spec fn keys_of_column(keys: SortKeys, column: Column) -> bool {
    key_count(keys) == column_rows(column) && forall|row: int|
        0 <= row < column_rows(column) ==> #[trigger] key_of_row(keys, column, row)
}

/// Whether the key of `row` is null where the value is, and otherwise stands
/// for the value in the order of its type.
pub open spec fn key_of_row(keys: SortKeys, column: Column, row: int) -> bool {
    match keys {
        SortKeys::Integers(values) => if crate::scalar::null_at(column, row) {
            values@[row] is None
        } else {
            values@[row] is Some && values@[row]->0 == integer_key(value_at(column, row)) && !(
            value_at(column, row) is Utf8)
        },
        SortKeys::Texts(values) => if crate::scalar::null_at(column, row) {
            values@[row] is None
        } else {
            values@[row] is Some && value_at(column, row) == ScalarModel::Utf8(values@[row]->0@)
        },
    }
}

fn key_at(column: &Column, row: usize) -> (key: i64)
    requires
        row < column_rows(*column),
        !crate::scalar::null_at(*column, row as int),
        !(*column is Other),
        !(*column is Utf8),
        !(*column is LargeUtf8),
    ensures
        key == integer_key(value_at(*column, row as int)),
{
    match column {
        Column::Boolean(values) => if values[row].unwrap() {
            1
        } else {
            0
        },
        Column::Int8(values) => values[row].unwrap() as i64,
        Column::Int16(values) => values[row].unwrap() as i64,
        Column::Int32(values) => values[row].unwrap() as i64,
        Column::Int64(values) => values[row].unwrap(),
        Column::UInt8(values) => shifted(values[row].unwrap() as u64),
        Column::UInt16(values) => shifted(values[row].unwrap() as u64),
        Column::UInt32(values) => shifted(values[row].unwrap() as u64),
        Column::UInt64(values) => shifted(values[row].unwrap()),
        Column::Float32(values) => float_rank(values[row].unwrap()),
        Column::Float64(values) => float_rank(values[row].unwrap()),
        Column::Date32(values) => values[row].unwrap() as i64,
        Column::Date64(values) => values[row].unwrap(),
        Column::Timestamp(_, values) => values[row].unwrap(),
        _ => 0,
    }
}

fn shifted(value: u64) -> (key: i64)
    ensures
        key == value - 0x8000_0000_0000_0000,
{
    (value as i128 - 0x8000_0000_0000_0000i128) as i64
}

fn text_keys(values: &Vec<Option<String>>) -> (keys: Vec<Option<String>>)
    ensures
        keys@.len() == values@.len(),
        forall|row: int|
            0 <= row < values@.len() ==> ((#[trigger] keys@[row]) is None <==> values@[row] is None)
                && (keys@[row] is Some ==> keys@[row]->0@ == values@[row]->0@),
{
    let mut keys: Vec<Option<String>> = Vec::new();
    let mut row: usize = 0;
    while row < values.len()
        invariant
            row <= values@.len(),
            keys@.len() == row,
            forall|k: int|
                0 <= k < row ==> ((#[trigger] keys@[k]) is None <==> values@[k] is None) && (
                keys@[k] is Some ==> keys@[k]->0@ == values@[k]->0@),
        decreases values@.len() - row,
    {
        match &values[row] {
            Some(text) => keys.push(Some(text.clone())),
            None => keys.push(None),
        }
        row = row + 1;
    }
    keys
}

/// The sort keys of a column; none where its type cannot be sorted by.
pub fn sort_keys(column: &Column) -> (keys: Option<SortKeys>)
    ensures
        match keys {
            Some(keys) => !(*column is Other) && keys_of_column(keys, *column),
            None => *column is Other,
        },
{
    match column {
        Column::Other(_) => None,
        Column::Utf8(values) => Some(SortKeys::Texts(text_keys(values))),
        Column::LargeUtf8(values) => Some(SortKeys::Texts(text_keys(values))),
        _ => {
            let mut keys: Vec<Option<i64>> = Vec::new();
            let rows: usize = column.len();
            let mut row: usize = 0;
            while row < rows
                invariant
                    !(*column is Other),
                    !(*column is Utf8),
                    !(*column is LargeUtf8),
                    rows == column_rows(*column),
                    row <= rows,
                    keys@.len() == row,
                    forall|k: int|
                        0 <= k < row ==> (if crate::scalar::null_at(*column, k) {
                            (#[trigger] keys@[k]) is None
                        } else {
                            keys@[k] is Some && keys@[k]->0 == integer_key(value_at(*column, k))
                        }),
                decreases rows - row,
            {
                if column.is_null(row) {
                    keys.push(None);
                } else {
                    keys.push(Some(key_at(column, row)));
                }
                row = row + 1;
            }
            Some(SortKeys::Integers(keys))
        },
    }
}

/// Sorting by keys is sorting by values: the keys of two rows that are not null
/// stand to each other as their values do.
pub proof fn law_keys_order_as_values(keys: SortKeys, column: Column, i: int, j: int)
    requires
        !(column is Other),
        keys_of_column(keys, column),
        0 <= i < column_rows(column),
        0 <= j < column_rows(column),
        !crate::scalar::null_at(column, i),
        !crate::scalar::null_at(column, j),
    ensures
        row_order(keys, i, j, false, true) == scalar_order(value_at(column, i), value_at(column, j)),
{
    assert(key_of_row(keys, column, i));
    assert(key_of_row(keys, column, j));
}

} // verus!
