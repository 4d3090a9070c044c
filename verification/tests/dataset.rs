use pavi::aggregate::{AggregateExpr, AggregateFunction, AggregateSpec, GroupBudget};
use pavi::cache::{PageCache, PageCacheLimits, PageCacheStats};
use pavi::filter::{FilterError, FilterExpr, FilterInput, FilterOp, FloatOrder, Statistics};
use pavi::metadata::{ColumnStatistics, DatasetMetadata, RowGroupInfo};
use pavi::page::{first_row_of, page_count, DataPage, PageKey, RowWindow};
use pavi::projection::{Projection, ProjectionError};
use pavi::schema::{DataType, Field, Schema};
use pavi::sort::{BudgetError, SortBudget};
use pavi::window::WindowError;

fn field(name: &str, data_type: DataType) -> Field {
    Field {
        name: name.to_string(),
        data_type,
        type_text: format!("{data_type:?}"),
        nullable: true,
        children: Vec::new(),
    }
}

fn schema() -> Schema {
    Schema {
        fields: vec![
            field("id", DataType::Int32),
            field("name", DataType::Utf8),
            field("flag", DataType::Boolean),
            field("raw", DataType::Binary),
        ],
    }
}

#[test]
fn rejects_empty_or_unbounded_specs() {
    assert!(AggregateSpec::new(vec![]).is_err());
    assert!(GroupBudget::new(0, 1).is_err());
    assert!(GroupBudget::new(1, 0).is_err());
    assert_eq!(
        AggregateSpec::new(vec![]).unwrap_err().message(),
        "aggregate needs at least one expression"
    );
    assert_eq!(
        GroupBudget::new(0, 1).unwrap_err().group_message(),
        "group budget needs at least one group"
    );
    assert_eq!(
        GroupBudget::new(1, 0).unwrap_err().group_message(),
        "group budget needs a positive byte limit"
    );
}

#[test]
fn aggregates_keep_their_parts() {
    let all = AggregateExpr::count_all();
    assert_eq!(all.function(), AggregateFunction::Count);
    assert_eq!(all.column(), None);
    for (expression, function) in [
        (AggregateExpr::count(4), AggregateFunction::Count),
        (AggregateExpr::sum(4), AggregateFunction::Sum),
        (AggregateExpr::avg(4), AggregateFunction::Avg),
        (AggregateExpr::min(4), AggregateFunction::Min),
        (AggregateExpr::max(4), AggregateFunction::Max),
    ] {
        assert_eq!(expression.function(), function);
        assert_eq!(expression.column(), Some(4));
    }
    let spec = AggregateSpec::grouped(2, vec![all, AggregateExpr::sum(1)]).unwrap();
    assert_eq!(spec.group_by(), Some(2));
    assert_eq!(spec.expressions(), &[all, AggregateExpr::sum(1)]);
    let budget = GroupBudget::new(3, 4).unwrap();
    assert_eq!((budget.max_groups(), budget.max_bytes()), (3, 4));
}

fn page(index: u64, bytes: usize, projection: Projection) -> DataPage {
    DataPage {
        key: PageKey::new(index, projection),
        window: RowWindow {
            first_row: index * 4096,
            row_count: 1,
        },
        batches: Vec::new(),
        byte_size: bytes,
    }
}

#[test]
fn evicts_after_max_pages() {
    let projection = Projection::all(1);
    let mut cache = PageCache::new(PageCacheLimits {
        max_pages: 2,
        max_bytes: 100,
    });

    cache.insert(page(0, 1, projection.copy()));
    cache.insert(page(1, 1, projection.copy()));
    cache.insert(page(2, 1, projection.copy()));

    assert_eq!(cache.len(), 2);
    assert!(cache.get(&PageKey::new(0, projection.copy())).is_none());
    assert!(cache.get(&PageKey::new(2, projection)).is_some());
}

#[test]
fn evicts_by_byte_budget() {
    let projection = Projection::all(1);
    let mut cache = PageCache::new(PageCacheLimits {
        max_pages: 8,
        max_bytes: 10,
    });

    cache.insert(page(0, 6, projection.copy()));
    cache.insert(page(1, 6, projection.copy()));

    assert_eq!(cache.len(), 1);
    assert_eq!(cache.bytes(), 6);
    assert!(cache.get(&PageKey::new(0, projection)).is_none());
}

#[test]
fn skips_oversized_pages() {
    let projection = Projection::all(1);
    let mut cache = PageCache::new(PageCacheLimits {
        max_pages: 8,
        max_bytes: 10,
    });

    assert!(!cache.insert(page(0, 11, projection.copy())));
    assert!(cache.get(&PageKey::new(0, projection)).is_none());
    assert!(cache.is_empty());
}

#[test]
fn isolates_projection_keys() {
    let mut cache = PageCache::new(PageCacheLimits {
        max_pages: 8,
        max_bytes: 100,
    });
    let first = Projection::columns(vec![0], 2).unwrap();
    let second = Projection::columns(vec![1], 2).unwrap();

    cache.insert(page(0, 1, first.copy()));

    assert!(cache.get(&PageKey::new(0, first)).is_some());
    assert!(cache.get(&PageKey::new(0, second)).is_none());
}

#[test]
fn records_hits_and_misses() {
    let projection = Projection::all(1);
    let mut cache = PageCache::default();

    assert!(cache.get(&PageKey::new(0, projection.copy())).is_none());
    cache.insert(page(0, 1, projection.copy()));
    assert!(cache.get(&PageKey::new(0, projection)).is_some());

    assert_eq!(
        cache.stats(),
        PageCacheStats {
            hits: 1,
            misses: 1,
            entries: 1,
            bytes: 1,
        }
    );
}

#[test]
fn a_used_page_outlives_an_older_one() {
    let projection = Projection::all(1);
    let mut cache = PageCache::new(PageCacheLimits {
        max_pages: 2,
        max_bytes: 100,
    });
    cache.insert(page(0, 1, projection.copy()));
    cache.insert(page(1, 1, projection.copy()));
    assert!(cache.get(&PageKey::new(0, projection.copy())).is_some());
    cache.insert(page(2, 1, projection.copy()));
    assert!(cache.get(&PageKey::new(0, projection.copy())).is_some());
    assert!(cache.get(&PageKey::new(1, projection)).is_none());
}

#[test]
fn parses_supported_filters() {
    assert_eq!(
        FilterExpr::parse("name contains \"abc\"").unwrap(),
        FilterExpr {
            column: "name".to_string(),
            op: FilterOp::Contains,
            value: "abc".to_string()
        }
    );
    assert_eq!(FilterExpr::parse("0 >= 42").unwrap().op, FilterOp::Ge);
    assert_eq!(FilterExpr::parse("0 <= 42").unwrap().op, FilterOp::Le);
    assert_eq!(FilterExpr::parse("0 == 42").unwrap().op, FilterOp::Eq);
    assert_eq!(FilterExpr::parse("0 != 42").unwrap().op, FilterOp::Ne);
    assert_eq!(FilterExpr::parse("0 > 42").unwrap().op, FilterOp::Gt);
    assert_eq!(FilterExpr::parse("0 < 42").unwrap().op, FilterOp::Lt);
}

#[test]
fn rejects_bad_filters() {
    assert!(FilterExpr::parse("").is_err());
    assert!(FilterExpr::parse("abc").is_err());
}

#[test]
fn filters_name_columns_and_fit_their_types() {
    let schema = schema();
    let column = |text: &str| FilterExpr::parse(text).unwrap().column_index(&schema);
    assert_eq!(column("name == x").unwrap(), 1);
    assert_eq!(column("2 == true").unwrap(), 2);
    assert!(column("missing == 1").is_err());
    let fits = |text: &str| FilterExpr::parse(text).unwrap().validate_schema(&schema);
    assert!(fits("id >= 3").is_ok());
    assert!(fits("id contains 3").is_err());
    assert!(fits("id == abc").is_err());
    assert!(fits("flag == true").is_ok());
    assert!(fits("flag > true").is_err());
    assert!(fits("flag == maybe").is_err());
    assert!(fits("name contains x").is_ok());
    assert!(fits("raw == x").is_err());
}

#[test]
fn filters_select_rows() {
    let mask = |text: &str, input: FilterInput| {
        FilterExpr::parse(text)
            .unwrap()
            .evaluate_batch(&input, "T")
            .unwrap()
    };
    assert_eq!(
        mask(
            "flag == true",
            FilterInput::Booleans(vec![Some(true), None, Some(false)])
        ),
        vec![true, false, false]
    );
    assert_eq!(
        mask(
            "id >= 2",
            FilterInput::Numbers(vec![
                Some(FloatOrder::Less),
                Some(FloatOrder::Equal),
                Some(FloatOrder::Greater),
                Some(FloatOrder::Unordered),
                None,
            ])
        ),
        vec![false, true, true, false, false]
    );
    assert_eq!(
        mask(
            "name contains an",
            FilterInput::Texts(vec![Some("banana".to_string()), None, Some("x".to_string())])
        ),
        vec![true, false, false]
    );
    let other = FilterExpr::parse("raw == 1")
        .unwrap()
        .evaluate_batch(&FilterInput::Other, "Binary");
    assert!(matches!(other, Err(FilterError::UnsupportedType(_))));
}

#[test]
fn statistics_rule_row_groups_out() {
    let possible = |text: &str, statistics: Statistics| {
        FilterExpr::parse(text)
            .unwrap()
            .might_match_statistics(Some(&statistics))
    };
    let names = || Statistics::ByteArray(Some(b"b".to_vec()), Some(b"d".to_vec()));
    assert!(!possible("name == a", names()));
    assert!(possible("name == c", names()));
    assert!(!possible("name > d", names()));
    assert!(possible("name contains z", names()));
    let flags = || Statistics::Boolean(Some(false), Some(false));
    assert!(!possible("flag == true", flags()));
    assert!(possible("flag != true", flags()));
    let numbers = || Statistics::Number(Some(FloatOrder::Greater), Some(FloatOrder::Greater));
    assert!(!possible("id == 3", numbers()));
    assert!(possible("id > 3", numbers()));
    assert!(FilterExpr::parse("name == a").unwrap().might_match_statistics(None));
}

fn metadata(counts: &[u64]) -> DatasetMetadata {
    DatasetMetadata::new(Schema { fields: Vec::new() }, counts.to_vec()).unwrap()
}

#[test]
fn builds_cumulative_row_ranges() {
    let metadata = metadata(&[3, 0, 4]);
    assert_eq!(
        metadata.row_groups,
        vec![
            RowGroupInfo {
                index: 0,
                first_row: 0,
                row_count: 3
            },
            RowGroupInfo {
                index: 1,
                first_row: 3,
                row_count: 0
            },
            RowGroupInfo {
                index: 2,
                first_row: 3,
                row_count: 4
            }
        ]
    );
}

#[test]
fn finds_row_groups_by_binary_search() {
    let metadata = metadata(&[3, 4]);
    assert_eq!(metadata.row_group_for_row(0).unwrap().index, 0);
    assert_eq!(metadata.row_group_for_row(3).unwrap().index, 1);
    assert!(metadata.row_group_for_row(7).is_none());
}

#[test]
fn finds_overlapping_groups() {
    let metadata = metadata(&[3, 4, 5]);
    assert_eq!(metadata.overlapping_row_group_indexes(2, 6), vec![0, 1, 2]);
    assert_eq!(metadata.overlapping_row_group_indexes(3, 4), vec![1]);
    assert_eq!(
        metadata.overlapping_row_group_indexes(12, 1),
        Vec::<usize>::new()
    );
}

#[test]
fn rejects_cumulative_overflow() {
    let result = DatasetMetadata::new(Schema { fields: Vec::new() }, vec![u64::MAX, 1]);
    assert!(result.is_err());
    assert_eq!(result.unwrap_err().message(), "cumulative row count overflow");
}

#[test]
fn bounds_large_windows_without_truncating_remaining_rows() {
    let metadata = metadata(&[u64::MAX]);

    assert_eq!(metadata.validate_window(0, 1).unwrap(), 1);
}

#[test]
fn rejects_windows_behind_the_last_row() {
    let metadata = metadata(&[3, 4]);
    assert_eq!(metadata.validate_window(5, 10).unwrap(), 2);
    assert_eq!(metadata.validate_window(7, 1).unwrap(), 0);
    let error = metadata.validate_window(8, 1).unwrap_err();
    assert_eq!(error.message(), "first row 8 is past row count 7");
    assert!(matches!(
        metadata.plan_window(8, 1),
        Err(WindowError::PastEnd(_))
    ));
    let plan = metadata.plan_window(2, 3).unwrap().unwrap();
    assert_eq!(plan.row_groups, vec![0, 1]);
    assert!(metadata.plan_window(7, 1).unwrap().is_none());
}

#[test]
fn statistics_stand_with_their_columns() {
    let known = |null_count| {
        Some(ColumnStatistics {
            min: None,
            max: None,
            null_count: Some(null_count),
            distinct_count: None,
        })
    };
    let metadata = DatasetMetadata::new(
        Schema {
            fields: vec![field("id", DataType::Int32)],
        },
        vec![2, 3],
    )
    .unwrap();
    assert!(metadata.columns()[0].row_group_statistics[1].is_none());
    let metadata = metadata.with_column_statistics(vec![vec![known(1), known(2)]]);
    assert_eq!(metadata.columns()[0].row_group_statistics[1], known(2));
}

#[test]
fn computes_first_middle_and_final_pages() {
    assert_eq!(
        RowWindow::for_page(0, 10_000),
        RowWindow {
            first_row: 0,
            row_count: 4096
        }
    );
    assert_eq!(
        RowWindow::for_page(1, 10_000),
        RowWindow {
            first_row: 4096,
            row_count: 4096
        }
    );
    assert_eq!(
        RowWindow::for_page(2, 10_000),
        RowWindow {
            first_row: 8192,
            row_count: 1808
        }
    );
}

#[test]
fn pages_tile_the_rows() {
    let rows: u64 = 10_000;
    assert_eq!(page_count(rows), 3);
    let mut next = 0;
    for index in 0..page_count(rows) {
        let window = RowWindow::for_page(index, rows);
        assert_eq!(window.first_row, next);
        assert_eq!(first_row_of(index), next);
        next += window.row_count as u64;
    }
    assert_eq!(next, rows);
    assert_eq!(RowWindow::for_page(3, rows).row_count, 0);
    assert_eq!(first_row_of(u64::MAX), u64::MAX);
}

#[test]
fn supports_all_columns() {
    assert_eq!(Projection::all(3).as_slice(), &[0, 1, 2]);
    assert_eq!(
        Projection::columns(Vec::new(), 3).unwrap().as_slice(),
        &[0, 1, 2]
    );
}

#[test]
fn preserves_requested_order() {
    assert_eq!(
        Projection::columns(vec![2, 0], 3).unwrap().as_slice(),
        &[2, 0]
    );
}

#[test]
fn rejects_bad_columns() {
    assert!(Projection::columns(vec![3], 3).is_err());
    assert!(Projection::columns(vec![1, 1], 3).is_err());
    assert_eq!(
        Projection::columns(vec![3], 3).unwrap_err(),
        ProjectionError::OutOfRange(3)
    );
    assert_eq!(
        Projection::columns(vec![1, 1], 3).unwrap_err().message(),
        "duplicate column index 1"
    );
}

#[test]
fn files_are_read_in_stored_order() {
    let projection = Projection::columns(vec![2, 0, 1], 4).unwrap();
    assert_eq!(projection.parquet_columns(), vec![0, 1, 2]);
    assert_eq!(projection.decoded_positions(), vec![2, 0, 1]);
}

#[test]
fn rejects_unbounded_sort_budgets() {
    assert!(SortBudget::new(0, 1).is_err());
    assert!(SortBudget::new(1, 0).is_err());
    assert_eq!(SortBudget::new(0, 1).unwrap_err(), BudgetError::NoItems);
    assert_eq!(
        SortBudget::new(0, 1).unwrap_err().sort_message(),
        "sort budget needs at least one row"
    );
    assert_eq!(
        SortBudget::new(1, 0).unwrap_err().sort_message(),
        "sort budget needs a positive byte limit"
    );
}
