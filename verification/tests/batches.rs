use std::sync::Arc;

use arrow_array::types::{Int16Type, Int32Type, Int8Type};
use arrow_array::{
    Array, ArrayRef, BooleanArray, Date64Array, DictionaryArray, FixedSizeBinaryArray,
    FixedSizeListArray, Float64Array,
    Int16Array, Int32Array, Int64Array, Int8Array, LargeStringArray, ListArray, NullArray,
    RecordBatch, RunArray, StringArray, StructArray, TimestampSecondArray, UInt64Array, UInt8Array,
};
use arrow_schema::{DataType, Field, Fields, Schema};
use pavi::accumulate::{Accumulator, AggregateError, FloatSum};
use pavi::aggregate::AggregateFunction;
use pavi::batch::{concat_or_empty, equally_wide, Batch, BatchError};
use pavi::cells::{read_input, read_keys};
use pavi::filter::FilterInput;
use pavi::nested::{can_count, can_count_columns, can_fit_together};
use pavi::order::{sorted_order, SortKeys};
use pavi::output::{build_array, OutputColumn};
use pavi::page::{DataPage, PageKey, RowWindow};
use pavi::projection::Projection;
use pavi::reads::{JoinedRows, ReadError};
use pavi::scalar::{scalar_at, Column, FloatCell, Scalar};
use pavi::sort::{NullOrder, SortDirection, SortSpec};
use pavi::sorted::sorted_batches;
use pavi::window::FilteredWindow;

fn batch_of(array: ArrayRef) -> Batch {
    let field = Field::new("value", array.data_type().clone(), true);
    Batch {
        table: RecordBatch::try_new(Arc::new(Schema::new(vec![field])), vec![array]).unwrap(),
    }
}

fn joined(batches: Vec<Batch>) -> Batch {
    concat_or_empty(batches).unwrap().unwrap()
}

fn refused(batches: Vec<Batch>) -> BatchError {
    concat_or_empty(batches).unwrap_err()
}

fn lists(values: &[i32]) -> ArrayRef {
    let rows = values.iter().map(|value| Some(vec![Some(*value), None]));
    Arc::new(ListArray::from_iter_primitive::<Int32Type, _, _>(rows))
}

fn nulls_in_a_row(count: i32) -> ArrayRef {
    let field = Arc::new(Field::new("item", DataType::Null, true));
    let values: ArrayRef = Arc::new(NullArray::new(count as usize));
    Arc::new(FixedSizeListArray::new(field, count, values, None))
}

fn in_lists(array: ArrayRef, each: i32) -> ArrayRef {
    let field = Arc::new(Field::new("item", array.data_type().clone(), true));
    let fixed = FixedSizeListArray::new(field, each, array, None);
    Arc::new(ListArray::from(fixed))
}

fn in_arrays(array: ArrayRef, each: i32) -> ArrayRef {
    let field = Arc::new(Field::new("item", array.data_type().clone(), true));
    Arc::new(FixedSizeListArray::new(field, each, array, None))
}

fn fixed_bytes(from: usize, count: usize) -> ArrayRef {
    let values = (from..from + count).map(|value| (value as u16).to_be_bytes());
    Arc::new(FixedSizeBinaryArray::try_from_iter(values).unwrap())
}

fn keyed(values: Vec<String>) -> ArrayRef {
    let array: DictionaryArray<Int8Type> = values.iter().map(|value| value.as_str()).collect();
    Arc::new(array)
}

#[test]
fn batches_are_put_together_row_by_row() {
    assert!(concat_or_empty(Vec::new()).unwrap().is_none());
    let only = batch_of(Arc::new(Int32Array::from(vec![1, 2])));
    assert_eq!(joined(vec![only]).table.num_rows(), 2);
    let batch = joined(vec![
        batch_of(Arc::new(Int32Array::from(vec![1, 2]))),
        batch_of(Arc::new(Int32Array::from(vec![Some(3), None]))),
    ]);
    let expected: ArrayRef = Arc::new(Int32Array::from(vec![Some(1), Some(2), Some(3), None]));
    assert_eq!(batch.table.column(0), &expected);
    let batch = joined(vec![batch_of(lists(&[1, 2])), batch_of(lists(&[3]))]);
    assert_eq!(batch.table.column(0), &lists(&[1, 2, 3]));
    assert!(equally_wide(&Vec::new()));
    assert!(equally_wide(&vec![batch_of(lists(&[1])), batch_of(lists(&[2]))]));
    let none = Batch {
        table: RecordBatch::new_empty(Arc::new(Schema::empty())),
    };
    assert!(!equally_wide(&vec![batch_of(lists(&[1])), none]));
    let mixed = vec![
        batch_of(Arc::new(Int32Array::from(vec![1]))),
        batch_of(Arc::new(Int64Array::from(vec![1]))),
    ];
    let error = refused(mixed);
    assert!(matches!(error, BatchError::Refused(_)));
    assert_eq!(error.message(), None);
}

#[test]
fn batches_with_too_much_below_them_are_refused() {
    let half = 1_500_000_000;
    let list = || batch_of(in_lists(Arc::new(NullArray::new(half as usize)), half));
    let one = vec![list()];
    assert!(can_fit_together(&one));
    assert_eq!(joined(one).table.num_rows(), 1);
    let both = vec![list(), list()];
    assert!(!can_fit_together(&both));
    let error = refused(both);
    assert!(matches!(error, BatchError::TooLarge));
    assert_eq!(
        error.message().as_deref(),
        Some("the rows hold more nested values than can be counted")
    );
    let small = vec![batch_of(nulls_in_a_row(9)), batch_of(nulls_in_a_row(9))];
    assert_eq!(joined(small).table.num_rows(), 2);
    let long = vec![batch_of(nulls_in_a_row(half)), batch_of(nulls_in_a_row(half))];
    assert_eq!(joined(long).table.num_rows(), 2);

    let runs = || -> Batch {
        let ends = Int16Array::from(vec![20_000]);
        let values = Int32Array::from(vec![7]);
        batch_of(Arc::new(
            RunArray::<Int16Type>::try_new(&ends, &values).unwrap(),
        ))
    };
    assert!(matches!(refused(vec![runs(), runs()]), BatchError::TooLarge));
}

#[test]
fn bytes_of_a_fixed_size_are_counted_together() {
    let megabyte: ArrayRef = Arc::new(
        FixedSizeBinaryArray::try_from_iter(std::iter::once(vec![7u8; 1 << 20])).unwrap(),
    );
    let copies = |array: &ArrayRef, count: usize| -> Vec<Batch> {
        (0..count).map(|_| batch_of(Arc::clone(array))).collect()
    };
    assert!(can_fit_together(&copies(&megabyte, 2047)));
    assert!(!can_fit_together(&copies(&megabyte, 2048)));
    assert!(matches!(refused(copies(&megabyte, 2048)), BatchError::TooLarge));
    let inside = in_arrays(Arc::clone(&megabyte), 1);
    assert!(can_fit_together(&copies(&inside, 2047)));
    assert!(matches!(refused(copies(&inside, 2048)), BatchError::TooLarge));
    let fields = Fields::from(vec![Field::new("part", megabyte.data_type().clone(), true)]);
    let parts: ArrayRef = Arc::new(StructArray::new(fields, vec![Arc::clone(&megabyte)], None));
    assert!(matches!(refused(copies(&parts, 2048)), BatchError::TooLarge));
    let listed = in_lists(Arc::clone(&megabyte), 1);
    assert!(matches!(refused(copies(&listed, 2048)), BatchError::TooLarge));
    assert_eq!(joined(copies(&listed, 3)).table.num_rows(), 3);
    let two = joined(copies(&fixed_bytes(5, 2), 2));
    let expected: ArrayRef = Arc::new(
        FixedSizeBinaryArray::try_from_iter([5u16, 6, 5, 6].iter().map(|v| v.to_be_bytes()))
            .unwrap(),
    );
    assert_eq!(two.table.column(0), &expected);
}

#[test]
fn wide_and_deep_values_are_put_together() {
    let wide = || in_lists(in_arrays(Arc::new(Int32Array::from(vec![1; 40_000])), 20_000), 1);
    let batch = joined(vec![batch_of(wide()), batch_of(wide())]);
    assert_eq!(batch.table.num_rows(), 4);
    assert!(can_count(&batch));
    let deep = |levels: usize| {
        (0..levels).fold(Arc::new(Int32Array::from(vec![1, 2])) as ArrayRef, |array, level| {
            if level % 2 == 0 {
                in_lists(array, 1)
            } else {
                let field = Field::new("part", array.data_type().clone(), true);
                Arc::new(StructArray::new(Fields::from(vec![field]), vec![array], None))
            }
        })
    };
    let batch = joined(vec![batch_of(deep(80)), batch_of(deep(80))]);
    assert_eq!(batch.table.num_rows(), 4);
    let sort = SortSpec::new(0, SortDirection::Descending, NullOrder::Last);
    let keys = SortKeys::Integers(vec![Some(1), Some(2), Some(3), Some(4)]);
    let pages = sorted_batches(&batch, &keys, sort, &vec![0]).unwrap();
    assert_eq!(pages[0].table.num_rows(), 4);
    let first = pages[0].table.column(0).slice(0, 1);
    assert_eq!(&first, &batch.table.column(0).slice(3, 1));
    assert!(can_count(&batch_of(deep(80))));
}

#[test]
fn dictionaries_are_merged_where_their_keys_allow() {
    let names = |from: usize| -> Vec<String> {
        (from..from + 100).map(|name| format!("name {name}")).collect()
    };
    let same = vec![batch_of(keyed(names(0))), batch_of(keyed(names(0)))];
    assert!(can_fit_together(&same));
    assert_eq!(joined(same).table.num_rows(), 200);
    let different = vec![batch_of(keyed(names(0))), batch_of(keyed(names(100)))];
    assert!(can_fit_together(&different));
    assert!(matches!(refused(different), BatchError::Refused(_)));

    let fixed = |array: ArrayRef| -> Batch {
        let field = Arc::new(Field::new("item", array.data_type().clone(), true));
        batch_of(Arc::new(FixedSizeListArray::new(field, 1, array, None)))
    };
    let nested = vec![fixed(keyed(names(0))), fixed(keyed(names(100)))];
    assert!(!can_fit_together(&nested));
    assert!(matches!(refused(nested), BatchError::TooLarge));
    let parts = |array: ArrayRef| -> Batch {
        let fields = Fields::from(vec![Field::new("part", array.data_type().clone(), true)]);
        batch_of(Arc::new(StructArray::new(fields, vec![array], None)))
    };
    let inside = vec![parts(keyed(names(0))), parts(keyed(names(0)))];
    assert!(can_fit_together(&inside));
    assert_eq!(joined(inside).table.num_rows(), 200);

    let bytes = |from: usize, count: usize| -> Batch {
        let keys = Int8Array::from((0..count as i8).collect::<Vec<_>>());
        batch_of(Arc::new(DictionaryArray::<Int8Type>::new(keys, fixed_bytes(from, count))))
    };
    assert_eq!(joined(vec![bytes(0, 60), bytes(60, 60)]).table.num_rows(), 120);
    assert!(matches!(refused(vec![bytes(0, 64), bytes(64, 64)]), BatchError::TooLarge));

    let full = full_dictionary();
    assert!(!can_fit_together(&vec![batch_of(Arc::clone(&full)), batch_of(full)]));
}

fn full_dictionary() -> ArrayRef {
    Arc::new(DictionaryArray::<Int8Type>::new(
        Int8Array::from(vec![0, 127]),
        Arc::new(Int32Array::from((0..128).collect::<Vec<_>>())),
    ))
}

#[test]
fn rows_with_too_much_below_them_are_not_sorted() {
    let sort = SortSpec::new(0, SortDirection::Ascending, NullOrder::Last);
    let keys = SortKeys::Integers(vec![Some(1)]);
    let batch = batch_of(nulls_in_a_row(1_500_000_000));
    assert!(can_count_columns(&batch, &vec![0]));
    let runs = RunArray::<Int16Type>::try_new(
        &Int16Array::from(vec![1]),
        &Int32Array::from(vec![7]),
    );
    let batch = batch_of(Arc::new(runs.unwrap()));
    assert!(!can_count_columns(&batch, &vec![0]));
    assert!(matches!(
        sorted_batches(&batch, &keys, sort, &vec![0]),
        Err(BatchError::TooLarge)
    ));
    let keys = SortKeys::Integers(vec![Some(3), None, Some(1)]);
    let pages = sorted_batches(&batch_of(lists(&[3, 9, 1])), &keys, sort, &vec![0]).unwrap();
    assert_eq!(pages[0].table.column(0), &lists(&[1, 3, 9]));
}

#[test]
fn rows_with_too_much_below_them_are_not_filtered() {
    let runs = RunArray::<Int16Type>::try_new(
        &Int16Array::from(vec![2]),
        &Int32Array::from(vec![7]),
    );
    let batch = batch_of(Arc::new(runs.unwrap()));
    assert!(!can_count(&batch));
    let mut window = FilteredWindow::new(0, 1, vec![0]);
    assert!(matches!(
        window.offer(&batch, &vec![true, false]),
        Err(BatchError::TooLarge)
    ));
    let batch = batch_of(lists(&[4, 5, 6]));
    assert!(can_count(&batch));
    window.offer(&batch, &vec![false, true, true]).unwrap();
    assert!(window.is_full());
    let found = window.finish().unwrap().unwrap();
    assert_eq!(found.table.column(0), &lists(&[5]));

    let batch = batch_of(full_dictionary());
    assert!(can_count(&batch));
    let mut window = FilteredWindow::new(0, 1, vec![0]);
    window.offer(&batch, &vec![false, true]).unwrap();
    let found = window.finish().unwrap().unwrap();
    let expected = full_dictionary().slice(1, 1);
    assert_eq!(found.table.column(0), &expected);
    assert!(!can_count(&batch_of(in_lists(full_dictionary(), 1))));
    assert!(!can_count(&batch_of(in_arrays(full_dictionary(), 2))));

    let bytes = Int8Array::from(vec![1, 2, 3, 4, 5]).values().inner().clone();
    let cut = FixedSizeBinaryArray::new(2, bytes, None);
    assert!(!can_count(&batch_of(Arc::new(cut.clone()))));
    assert!(can_count(&batch_of(Arc::new(cut.slice(0, 2)))));
    assert!(can_count(&batch_of(fixed_bytes(0, 3))));
}

#[test]
fn equal_keys_keep_their_places() {
    let keys = SortKeys::Integers(vec![Some(2), Some(1), None, Some(2), None, Some(1)]);
    let order = |direction, nulls| sorted_order(&keys, SortSpec::new(0, direction, nulls)).unwrap();
    assert_eq!(
        order(SortDirection::Ascending, NullOrder::Last),
        vec![1, 5, 0, 3, 2, 4]
    );
    assert_eq!(
        order(SortDirection::Descending, NullOrder::First),
        vec![2, 4, 0, 3, 1, 5]
    );
    assert!(sorted_order(
        &SortKeys::Texts(Vec::new()),
        SortSpec::new(0, SortDirection::Ascending, NullOrder::Last)
    )
    .unwrap()
    .is_empty());
}

fn integers(array: ArrayRef) -> Vec<Option<i64>> {
    match read_keys(&batch_of(array), 0) {
        Some(SortKeys::Integers(keys)) => keys,
        other => panic!("unexpected keys {other:?}"),
    }
}

fn key_texts(array: ArrayRef) -> Vec<Option<String>> {
    match read_keys(&batch_of(array), 0) {
        Some(SortKeys::Texts(keys)) => keys,
        other => panic!("unexpected keys {other:?}"),
    }
}

#[test]
fn columns_are_read_as_plain_values() {
    assert_eq!(
        integers(Arc::new(Int8Array::from(vec![Some(-3), None]))),
        vec![Some(-3), None]
    );
    assert_eq!(
        integers(Arc::new(Int64Array::from(vec![i64::MIN, i64::MAX]))),
        vec![Some(i64::MIN), Some(i64::MAX)]
    );
    assert_eq!(
        integers(Arc::new(UInt8Array::from(vec![0, 255]))),
        vec![Some(i64::MIN), Some(i64::MIN + 255)]
    );
    assert_eq!(
        integers(Arc::new(UInt64Array::from(vec![u64::MAX]))),
        vec![Some(i64::MAX)]
    );
    assert_eq!(
        integers(Arc::new(Date64Array::from(vec![5]))),
        vec![Some(5)]
    );
    assert_eq!(
        integers(Arc::new(TimestampSecondArray::from(vec![None, Some(6)]))),
        vec![None, Some(6)]
    );
    assert_eq!(
        integers(Arc::new(BooleanArray::from(vec![
            Some(true),
            None,
            Some(false)
        ]))),
        vec![Some(1), None, Some(0)]
    );
    let texts = vec![Some("b".to_string()), None, Some("a".to_string())];
    assert_eq!(key_texts(Arc::new(StringArray::from(texts.clone()))), texts);
    assert_eq!(
        key_texts(Arc::new(LargeStringArray::from(texts.clone()))),
        texts
    );
    assert!(read_keys(&batch_of(Arc::new(Float64Array::from(vec![1.5]))), 0).is_none());
    assert!(read_keys(&batch_of(lists(&[1])), 0).is_none());

    let input = read_input(&batch_of(Arc::new(StringArray::from(texts.clone()))), 0);
    assert!(matches!(input, Some(FilterInput::Texts(found)) if found == texts));
    let input = read_input(&batch_of(Arc::new(BooleanArray::from(vec![true]))), 0);
    assert!(matches!(input, Some(FilterInput::Booleans(found)) if found == vec![Some(true)]));
    assert!(read_input(&batch_of(Arc::new(Int32Array::from(vec![1]))), 0).is_none());
}

#[test]
fn rows_are_sorted_by_their_own_column() {
    let rows = |array: ArrayRef| JoinedRows {
        rows: batch_of(array),
        key_position: 0,
        output_positions: vec![0],
        sort: SortSpec::new(0, SortDirection::Descending, NullOrder::Last),
    };
    let pages = rows(Arc::new(UInt8Array::from(vec![Some(7), None, Some(9)])))
        .sorted_by_key()
        .unwrap()
        .unwrap();
    let expected: ArrayRef = Arc::new(UInt8Array::from(vec![Some(9), Some(7), None]));
    assert_eq!(pages[0].table.column(0), &expected);

    let floats = rows(Arc::new(Float64Array::from(vec![1.0, 2.5])));
    assert!(floats.sorted_by_key().is_none());
    let bits = [1.0_f64, 2.5].map(|value| Some(value.to_bits())).to_vec();
    let pages = floats.sorted(&Column::Float64(bits)).unwrap();
    let expected: ArrayRef = Arc::new(Float64Array::from(vec![2.5, 1.0]));
    assert_eq!(pages[0].table.column(0), &expected);
    assert!(matches!(
        floats.sorted(&Column::Float64(Vec::new())),
        Err(ReadError::Rows)
    ));
}

#[test]
fn pages_are_as_large_as_their_batches() {
    let page = |sizes: Vec<usize>| -> usize {
        let key = PageKey::new(0, Projection::all(1));
        let window = RowWindow {
            first_row: 0,
            row_count: 0,
        };
        DataPage::sized(key, window, Vec::new(), &sizes).byte_size
    };
    assert_eq!(page(vec![]), 0);
    assert_eq!(page(vec![3, 4, 5]), 12);
    assert_eq!(page(vec![usize::MAX, 4]), usize::MAX);
    let batch = batch_of(Arc::new(Int64Array::from(vec![1; 1_000])));
    let key = PageKey::new(0, Projection::all(1));
    let window = RowWindow {
        first_row: 0,
        row_count: 1_000,
    };
    assert!(DataPage::new(key, window, vec![batch]).byte_size >= 8_000);
}

fn add(bits: u64, cell: FloatCell) -> FloatSum {
    let number = match cell {
        FloatCell::Bits(bits) => f64::from_bits(bits),
        FloatCell::Signed(value) => value as f64,
        FloatCell::Unsigned(value) => value as f64,
    };
    let sum = f64::from_bits(bits) + number;
    FloatSum {
        bits: sum.to_bits(),
        finite: sum.is_finite(),
    }
}

fn divide(sum: u64, count: u64) -> u64 {
    (f64::from_bits(sum) / count as f64).to_bits()
}

#[test]
fn failed_updates_leave_the_aggregate() {
    let mut sum = Accumulator::SumI64(Some(i64::MAX));
    assert_eq!(
        sum.update(false, Some(Scalar::I64(1)), &add),
        Err(AggregateError::SignedOverflow)
    );
    assert_eq!(sum.value(&divide), Some(Scalar::I64(i64::MAX)));
    assert_eq!(
        sum.update(false, Some(Scalar::U64(1)), &add),
        Err(AggregateError::SignedMismatch)
    );
    assert_eq!(sum.value(&divide), Some(Scalar::I64(i64::MAX)));
    let mut sum = Accumulator::SumU64(Some(u64::MAX));
    assert_eq!(
        sum.update(false, Some(Scalar::U64(1)), &add),
        Err(AggregateError::UnsignedOverflow)
    );
    assert_eq!(sum.value(&divide), Some(Scalar::U64(u64::MAX)));
    let mut count = Accumulator::Count(u64::MAX);
    assert_eq!(
        count.update(true, None, &add),
        Err(AggregateError::CountOverflow)
    );
    assert_eq!(count.value(&divide), Some(Scalar::U64(u64::MAX)));
    let mut average = Accumulator::Avg {
        sum: 1.0_f64.to_bits(),
        count: u64::MAX,
    };
    assert_eq!(
        average.update(false, Some(Scalar::I64(2)), &add),
        Err(AggregateError::AvgCountOverflow)
    );
    assert!(matches!(
        average,
        Accumulator::Avg { sum, count: u64::MAX } if f64::from_bits(sum) == 3.0
    ));
}

#[test]
fn least_and_greatest_ignore_nulls_and_order() {
    let run = |function, values: &[Option<&str>]| -> Option<Scalar> {
        let mut extreme = Accumulator::new(function, None).unwrap();
        for value in values {
            let scalar = value.map_or(Scalar::Null, |text| Scalar::Utf8(text.to_string()));
            extreme.update(false, Some(scalar), &add).unwrap();
        }
        extreme.value(&divide)
    };
    let values = [None, Some("pear"), Some("apple"), None, Some("quince"), Some("apple")];
    assert_eq!(
        run(AggregateFunction::Min, &values),
        Some(Scalar::Utf8("apple".to_string()))
    );
    assert_eq!(
        run(AggregateFunction::Max, &values),
        Some(Scalar::Utf8("quince".to_string()))
    );
    assert_eq!(run(AggregateFunction::Min, &[None, None]), None);
    assert_eq!(run(AggregateFunction::Max, &[]), None);
}

#[test]
fn written_values_are_those_that_were_read() {
    let read = |column: &Column, data_type| -> OutputColumn {
        let values: Vec<Option<Scalar>> = (0..column.len())
            .map(|row| Some(scalar_at(column, row, data_type).unwrap()))
            .collect();
        build_array(data_type, &values).unwrap()
    };
    let column = Column::Int8(vec![Some(-128), None, Some(127)]);
    assert!(matches!(
        read(&column, column.data_type()),
        OutputColumn::Int8(values) if values == vec![Some(-128), None, Some(127)]
    ));
    let column = Column::UInt16(vec![Some(65_535), None]);
    assert!(matches!(
        read(&column, column.data_type()),
        OutputColumn::UInt16(values) if values == vec![Some(65_535), None]
    ));
    let half = 0.5_f64.to_bits();
    let column = Column::Float32(vec![None, Some(half)]);
    assert!(matches!(
        read(&column, column.data_type()),
        OutputColumn::Float32(values) if values == vec![None, Some(FloatCell::Bits(half))]
    ));
    let column = Column::Utf8(vec![Some("a".to_string()), None]);
    assert!(matches!(
        read(&column, column.data_type()),
        OutputColumn::Utf8(values) if values == vec![Some("a".to_string()), None]
    ));
}
