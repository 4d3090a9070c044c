use pavi::export::{
    csv_header, csv_rows, export_event, keeps_output, rows_written, temporary_name, CsvError,
    ExportEvent, ExportFormat,
};
use pavi::inspector::{
    column_summary, inspect_cell, metadata_null_count, nested_schema_preview, PREVIEW_LIMIT,
};
use pavi::metadata::{ColumnInfo, ColumnStatistics};
use pavi::runtime::GenerationId;
use pavi::schema::{DataType, Field, TimeUnit};
use pavi::table::{
    group_line, parse_columns, render_table, schema_line, split_char, truncate, ColumnsError,
};
use pavi::value::{
    format_cell, format_cell_with_limit, truncate_exact, CellValue, MAX_NESTED_ITEMS,
};

fn text(value: &str) -> CellValue {
    CellValue::Text(value.to_string())
}

#[test]
fn formats_basic_values_and_nulls() {
    assert_eq!(format_cell(&CellValue::Boolean(true)), "true");
    assert_eq!(format_cell(&CellValue::Signed(-7)), "-7");
    assert_eq!(format_cell(&CellValue::Unsigned(7)), "7");
    assert_eq!(format_cell(&CellValue::Written(1.5_f64.to_string())), "1.5");
    assert_eq!(format_cell(&CellValue::Null), "null");
    assert_eq!(format_cell(&CellValue::Date32(1)), "date32:1");
    assert_eq!(
        format_cell(&CellValue::Timestamp {
            unit: TimeUnit::Millisecond,
            value: 1000,
            timezone: None,
        }),
        "timestamp_ms:1000 UTC"
    );
}

#[test]
fn formats_dates_zones_and_broken_values() {
    assert_eq!(format_cell(&CellValue::Date64(-5)), "date64_ms:-5");
    assert_eq!(
        format_cell(&CellValue::Timestamp {
            unit: TimeUnit::Second,
            value: -1,
            timezone: Some("Europe/Bern".to_string()),
        }),
        "timestamp_s:-1 Europe/Bern"
    );
    assert_eq!(format_cell(&CellValue::InvalidMap), "<invalid map>");
    assert_eq!(format_cell(&CellValue::Mismatch), "<type mismatch>");
    assert_eq!(format_cell(&CellValue::Boolean(false)), "false");
}

#[test]
fn bounds_large_values() {
    assert_eq!(format_cell_with_limit(&text("abcdef"), 3), "abc...");

    let binary = CellValue::Binary(b"abcdef".to_vec());
    assert_eq!(format_cell_with_limit(&binary, 6), "616263...");
}

#[test]
fn values_are_cut_between_characters() {
    assert_eq!(format_cell_with_limit(&text("äöü"), 3), "ä....");
    assert_eq!(truncate_exact("abcdef", 5), "ab...");
    assert_eq!(truncate_exact("abcdef", 3), "ab");
    assert_eq!(truncate_exact("abcdef", 0), "");
    assert_eq!(truncate_exact("abc", 3), "abc");
}

#[test]
fn safely_falls_back_for_unusual_arrow_types() {
    let duration = CellValue::Written("Duration(Second)".to_string());

    assert_eq!(format_cell(&duration), "Duration(Second)");
}

fn numbers(values: &[Option<i64>]) -> CellValue {
    CellValue::List(
        values
            .iter()
            .map(|value| value.map_or(CellValue::Null, CellValue::Signed))
            .collect(),
    )
}

#[test]
fn formats_struct_lists_large_lists_and_maps() {
    assert_eq!(
        format_cell(&numbers(&[Some(1), None, Some(3)])),
        "[1, null, 3]"
    );
    assert_eq!(format_cell(&numbers(&[])), "[]");
    assert_eq!(format_cell(&CellValue::Null), "null");

    assert_eq!(format_cell(&numbers(&[Some(9)])), "[9]");

    let structure = CellValue::Struct(vec![
        ("id".to_string(), CellValue::Signed(7)),
        ("tags".to_string(), numbers(&[Some(1), None, Some(3)])),
    ]);
    assert_eq!(format_cell(&structure), "{id: 7, tags: [1, null, 3]}");

    let map = CellValue::Mapping(vec![
        (text("first"), CellValue::Signed(1)),
        (text("second"), CellValue::Signed(2)),
    ]);
    assert_eq!(format_cell(&map), "{first: 1, second: 2}");
}

#[test]
fn caps_nested_values_by_item_count_and_display_limit() {
    let values = numbers(
        &(0..MAX_NESTED_ITEMS as i64 + 20)
            .map(Some)
            .collect::<Vec<_>>(),
    );
    let formatted = format_cell_with_limit(&values, 24);
    assert!(formatted.ends_with(']'));
    assert!(formatted.contains("..."));
    assert!(formatted.len() <= 24);
    assert!(format_cell_with_limit(&values, 200).contains("..."));
}

#[test]
fn nested_values_stop_at_a_depth_and_fit_any_limit() {
    let mut value = CellValue::Signed(1);
    for _ in 0..12 {
        value = CellValue::List(vec![value]);
    }
    assert_eq!(format_cell(&value), "[[[[[[[[<nested...>]]]]]]]]");
    for limit in 0..30 {
        assert!(format_cell_with_limit(&value, limit).len() <= limit);
    }
}

fn leaf(name: &str, data_type: DataType, children: Vec<Field>) -> Field {
    Field {
        name: name.to_string(),
        data_type,
        type_text: format!("{data_type:?}"),
        nullable: true,
        children,
    }
}

fn column(row_group_statistics: Vec<Option<ColumnStatistics>>) -> ColumnInfo {
    ColumnInfo {
        index: 2,
        name: "value".to_string(),
        data_type: DataType::Int32,
        nullable: true,
        row_group_statistics,
    }
}

fn nulls(null_count: Option<u64>) -> Option<ColumnStatistics> {
    Some(ColumnStatistics {
        min: Some("1".to_string()),
        max: Some("4".to_string()),
        null_count,
        distinct_count: None,
    })
}

#[test]
fn summarizes_available_and_missing_statistics_without_guessing_nulls() {
    let summary = column_summary(&column(vec![nulls(Some(2)), None]), "Int32");
    assert_eq!(summary.available_statistics, 1);
    assert_eq!(summary.null_count, None);
    assert_eq!(summary.row_groups, 2);
    let known = column_summary(&column(vec![nulls(Some(2)), nulls(Some(5))]), "Int32");
    assert_eq!(known.null_count, Some(7));
    assert_eq!(known.data_type, "Int32");
}

#[test]
fn metadata_null_counts_are_used_only_when_complete() {
    let complete = column(vec![nulls(Some(2)), nulls(Some(3))]);
    assert_eq!(metadata_null_count(&complete), Some(5));
    assert_eq!(metadata_null_count(&column(vec![None])), None);
    assert_eq!(metadata_null_count(&column(vec![nulls(None)])), None);
    let huge = column(vec![nulls(Some(u64::MAX)), nulls(Some(1))]);
    assert_eq!(metadata_null_count(&huge), None);
}

#[test]
fn inspects_nulls_and_bounds_long_text_and_binary_values() {
    let long = text(&"a".repeat(PREVIEW_LIMIT + 20));
    let detail = inspect_cell(4, 1, "text", DataType::Utf8, "Utf8", &long, true, false);
    assert!(detail.value.ends_with("..."));
    assert_eq!(detail.full_value, None);

    let binary = CellValue::Binary(vec![7; PREVIEW_LIMIT]);
    let detail = inspect_cell(
        4,
        2,
        "binary",
        DataType::Binary,
        "Binary",
        &binary,
        false,
        false,
    );
    assert!(detail.value.ends_with("..."));

    let detail = inspect_cell(
        5,
        0,
        "id",
        DataType::Int32,
        "Int32",
        &CellValue::Null,
        true,
        false,
    );
    assert!(detail.is_null);
    assert_eq!(detail.value, "null");
    assert_eq!(detail.full_value, None);
}

#[test]
fn handles_supported_and_nested_values_without_panicking() {
    let number = CellValue::Signed(7);
    assert_eq!(
        inspect_cell(0, 0, "id", DataType::Int32, "Int32", &number, true, false)
            .full_value
            .as_deref(),
        Some("7")
    );

    let list = numbers(&[Some(1), Some(2)]);
    let detail = inspect_cell(0, 1, "nested", DataType::List, "List", &list, true, true);
    assert!(detail.full_value.is_none());
    assert_eq!(detail.value, "[1, 2]");
    assert_eq!(detail.expanded_value.as_deref(), Some("[1, 2]"));
}

#[test]
fn describes_nested_schema_without_expanding_unboundedly() {
    let nested = leaf(
        "payload",
        DataType::Struct,
        vec![leaf(
            "items",
            DataType::List,
            vec![leaf("item", DataType::Int32, vec![])],
        )],
    );
    let preview = nested_schema_preview(&nested);
    assert!(preview.contains("payload: struct"));
    assert!(preview.contains("items: list"));
    assert!(preview.contains("item: Int32"));
    assert_eq!(
        preview,
        "payload: struct\n  items: list\n    item: Int32"
    );

    let value = CellValue::Struct(vec![("id".to_string(), CellValue::Signed(7))]);
    assert_eq!(
        inspect_cell(
            0,
            0,
            "payload",
            DataType::Struct,
            "Struct",
            &value,
            false,
            true
        )
        .expanded_value
        .as_deref(),
        Some("{id: 7}")
    );
}

#[test]
fn large_schemas_are_cut() {
    let wide = leaf(
        "wide",
        DataType::Struct,
        (0..100)
            .map(|index| leaf(&format!("c{index}"), DataType::Int32, vec![]))
            .collect(),
    );
    let preview = nested_schema_preview(&wide);
    assert_eq!(preview.lines().filter(|line| line.contains(": ")).count(), 64);
    assert!(preview.ends_with("  ..."));
    let mut deep = leaf("leaf", DataType::Int32, vec![]);
    for _ in 0..20 {
        deep = leaf("list", DataType::LargeList, vec![deep]);
    }
    let preview = nested_schema_preview(&deep);
    assert_eq!(preview.lines().count(), 10);
    assert!(preview.starts_with("list: large list\n  list"));
}

#[test]
fn writes_escaped_csv_with_nulls_and_multiple_batches() {
    let fields = vec![
        leaf("id", DataType::Int32, vec![]),
        leaf("text", DataType::Utf8, vec![]),
    ];
    let rows = |first: i64, values: Vec<CellValue>| {
        values
            .into_iter()
            .enumerate()
            .map(|(index, value)| vec![CellValue::Signed(first + index as i64), value])
            .collect::<Vec<_>>()
    };
    let mut output = csv_header(&fields).unwrap();
    output.push_str(&csv_rows(&rows(0, vec![text("a,b"), text("say \"hi\"")])).unwrap());
    output.push_str(&csv_rows(&rows(2, vec![CellValue::Null, text("line\nbreak")])).unwrap());
    output.push_str(&csv_rows(&rows(4, vec![text("ok")])).unwrap());
    assert_eq!(
        output,
        "id,text\n0,\"a,b\"\n1,\"say \"\"hi\"\"\"\n2,\n3,\"line\nbreak\"\n4,ok\n"
    );
}

#[test]
fn rejects_unsupported_csv_values_before_writing_rows() {
    let mut duration = leaf("duration", DataType::Other, vec![]);
    duration.type_text = "Duration(Second)".to_string();
    let fields = vec![leaf("id", DataType::Int32, vec![]), duration];
    let error = csv_header(&fields).unwrap_err();
    assert_eq!(error, CsvError::Type(1));
    assert_eq!(
        error.message(&fields),
        "CSV export does not support Duration(Second)"
    );
    assert_eq!(
        csv_rows(&vec![vec![CellValue::Null, numbers(&[])]]),
        Err(CsvError::Value(1))
    );
}

#[test]
fn writes_every_kind_of_csv_value() {
    let row = vec![
        CellValue::Boolean(true),
        CellValue::Unsigned(u64::MAX),
        CellValue::Written("1.5".to_string()),
        CellValue::Binary(vec![0, 171]),
        CellValue::Date32(-1),
        CellValue::Date64(2),
        CellValue::Timestamp {
            unit: TimeUnit::Nanosecond,
            value: 3,
            timezone: None,
        },
        text("\r"),
    ];
    assert_eq!(
        csv_rows(&vec![row]).unwrap(),
        "true,18446744073709551615,1.5,0x00ab,-1,2,3,\"\r\"\n"
    );
}

#[test]
fn exports_end_as_they_should() {
    let generation = GenerationId(4);
    assert_eq!(
        export_event(Ok(3), false, generation),
        ExportEvent::Finished {
            generation,
            rows: 3
        }
    );
    assert_eq!(
        export_event(Err("disk".to_string()), false, generation),
        ExportEvent::Failed {
            generation,
            error: "disk".to_string()
        }
    );
    assert_eq!(
        export_event(Ok(3), true, generation),
        ExportEvent::Cancelled { generation }
    );
    assert!(keeps_output(false, false));
    assert!(!keeps_output(true, false));
    assert_eq!(rows_written(u64::MAX, 3), u64::MAX);
    assert_eq!(
        temporary_name(Some("out.csv"), generation),
        "out.csv.pavi-4.tmp"
    );
    assert_eq!(temporary_name(None, generation), "export.pavi-4.tmp");
    assert_eq!(ExportFormat::Csv.label(), "CSV");
    assert_eq!(ExportFormat::Parquet.extension(), "parquet");
}

#[test]
fn prints_tables_with_bounded_columns() {
    let headers = vec!["id".to_string(), "name".to_string()];
    let rows = vec![
        vec!["1".to_string(), "x".repeat(40)],
        vec!["22".to_string(), "ä".to_string()],
    ];
    let printed = render_table(&headers, &rows);
    let expected = [
        "",
        "Preview: 2 rows × 2 columns",
        "",
        "┌─────┬──────┬──────────────────────────────────┐",
        "│   # │ id   │ name                             │",
        "├─────┼──────┼──────────────────────────────────┤",
        "│   1 │ 1    │ xxxxxxxxxxxxxxxxxxxxxxxxxxxxxxx… │",
        "│   2 │ 22   │ ä                                │",
        "└─────┴──────┴──────────────────────────────────┘",
        "",
    ]
    .join("\n");
    assert_eq!(printed, expected);
    assert_eq!(
        render_table(&vec![], &vec![vec![]]),
        "\nPreview: 1 rows × 0 columns\n\n(no columns)\n"
    );
    assert_eq!(truncate("abc", 1), "…");
    assert_eq!(truncate("abc", 2), "a…");
}

#[test]
fn prints_columns_and_row_groups() {
    assert_eq!(
        schema_line(7, "name", "Utf8"),
        "  7 name                 Utf8"
    );
    assert_eq!(
        group_line(1, 10, 5),
        "row group   1: rows 10..=14 (5 rows)"
    );
}

#[test]
fn parses_column_lists() {
    assert_eq!(parse_columns(None, 3).unwrap(), vec![0, 1, 2]);
    assert_eq!(parse_columns(Some(" 2, 0 "), 3).unwrap(), vec![2, 0]);
    assert!(matches!(
        parse_columns(Some("1,,2"), 3),
        Err(ColumnsError::Empty)
    ));
    assert_eq!(
        parse_columns(Some("a\"b"), 3).unwrap_err().message(),
        "invalid column index: \"a\\\"b\""
    );
    assert_eq!(
        parse_columns(Some("3"), 3).unwrap_err().message(),
        "column index 3 is out of range; file has 3 columns (0..2)"
    );
    assert_eq!(
        parse_columns(Some(""), 3).unwrap_err().message(),
        "empty column index in --columns"
    );
    assert_eq!(split_char("a,,b", ','), vec!["a", "", "b"]);
}
