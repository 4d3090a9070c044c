use std::collections::BTreeSet;

use pavi::clipboard::{range_bounds, start_of_cell, CellStart, SelectionText, MAX_CLIPBOARD_BYTES};
use pavi::labels::{
    byte_unit, chart_notice, compression_label, group_label, header_rows, history_label, number, opened_status,
    sort_heading, sorting_status, statistics_label, suggested_name, ui_row_count, window_label,
    Activity, ByteUnit, StatusBar,
};
use pavi::layouts::{
    columns_by_name, layout_preference, restored_order, restored_widths, schema_key,
    search_columns, type_label, widest_text,
};
use pavi::metadata::{ColumnStatistics, RowGroupInfo};
use pavi::navigation::{
    jump_to_input, move_by_keys, selected_source_column, visible_batch_columns, GridKeys,
    JumpOutcome,
};
use pavi::page::PAGE_ROWS;
use pavi::panels::next_generation;
use pavi::results::QueryKind;
use pavi::runtime::GenerationId;
use pavi::schema::{DataType, Field};
use pavi::session::QueryHistoryEntry;
use pavi::sort::{NullOrder, SortDirection, SortSpec};
use pavi::spacing::Spacing;
use pavi::state::{
    ColumnLayout, GridState, LoadState, SelectionRange, ToolbarAvailability, ToolbarCommand,
    Workspace,
};
use pavi::times::format_time;

fn bits(width: f32) -> u32 {
    width.to_bits()
}

#[test]
fn maps_visible_rows_to_logical_pages() {
    let mut state = GridState::default();
    state.ready(PAGE_ROWS * 3 + 2, 2);

    assert_eq!(state.visible_pages(4_095, 4_097), vec![0, 1]);
    assert_eq!(
        state.visible_pages(PAGE_ROWS * 3, PAGE_ROWS * 3 + 1),
        vec![3]
    );
}

#[test]
fn deduplicates_page_requests_and_rejects_stale_results() {
    let mut state = GridState::default();
    let generation = state.reset();
    state.ready(10, 1);

    assert!(state.request_page(0));
    assert!(!state.request_page(0));
    assert!(!state.accept_page(GenerationId(generation.0 + 1), 0));
    assert!(state.accept_page(generation, 0));
    assert!(!state.request_page(0));
}

#[test]
fn reset_clears_selection_and_loading_data() {
    let mut state = GridState::default();
    state.ready(3, 2);
    state.request_page(0);
    state.select(1, 1);

    state.reset();
    assert_eq!(state.loading, LoadState::Opening);
    assert!(state.selection.is_none());
    assert!(state.selection_range.is_none());
    assert!(state.requested.is_empty());
    assert!(state.loaded.is_empty());
}

#[test]
fn handles_zero_rows_and_selection_bounds() {
    let mut state = GridState::default();
    state.ready(0, 4);
    assert!(state.visible_pages(0, 10).is_empty());
    assert!(!state.select(0, 0));

    state.ready(2, 2);
    assert!(state.select(1, 1));
    assert!(!state.select(2, 1));
    assert!(!state.select(1, 2));
}

#[test]
fn stores_filtered_selection_as_a_result_row() {
    let mut state = GridState::default();
    state.ready(2, 2);

    assert!(state.select_filtered(4_096, 1, 1));
    assert_eq!(state.selection, Some((4_097, 1)));
}

#[test]
fn maps_layout_hiding_reordering_and_reset_without_batch_state() {
    let mut layout = ColumnLayout::new(4, bits(130.0));
    layout.set_hidden(1, true);
    layout.move_source(3, -1);
    layout.set_width(3, bits(320.0));
    assert_eq!(layout.visible(), &[0, 3, 2]);
    assert_eq!(layout.display_for_source(3), Some(1));
    assert_eq!(layout.width(3, bits(0.0)), bits(320.0));

    layout.reset(bits(130.0));
    assert_eq!(layout.visible(), &[0, 1, 2, 3]);
    assert_eq!(layout.width(3, bits(0.0)), bits(130.0));
}

#[test]
fn supports_ranges_keyboard_movement_and_row_jumps() {
    let mut state = GridState::default();
    state.ready(10, 4);
    assert!(state.select(2, 1));
    assert!(state.extend_selection(4, 3));
    assert!(state.is_selected(3, 2));
    assert!(!state.is_selected(5, 2));
    assert!(state.move_selection(1, -1, false));
    assert_eq!(state.selection, Some((5, 2)));
    assert!(state.jump_to_row(99));
    assert_eq!(state.selection, Some((9, 2)));
}

#[test]
fn records_loading_and_error_states() {
    let mut state = GridState::default();
    state.reset();
    assert_eq!(state.loading, LoadState::Opening);
    state.loading = LoadState::Error("bad file".to_string());
    assert!(matches!(state.loading, LoadState::Error(_)));
}

#[test]
fn widths_stay_within_their_bounds() {
    let mut layout = ColumnLayout::new(2, bits(110.0));
    for (given, kept) in [
        (10.0_f32, 72.0_f32),
        (-5.0, 72.0),
        (-0.0, 72.0),
        (72.0, 72.0),
        (100.5, 100.5),
        (480.0, 480.0),
        (9_000.0, 480.0),
        (f32::INFINITY, 480.0),
        (f32::NEG_INFINITY, 72.0),
    ] {
        layout.set_width(1, bits(given));
        assert_eq!(f32::from_bits(layout.width(1, 0)), given.clamp(72.0, 480.0));
        assert_eq!(layout.width(1, 0), bits(kept));
    }
    layout.set_width(1, bits(f32::NAN));
    assert!(f32::from_bits(layout.width(1, 0)).is_nan());
    assert_eq!(layout.width(7, bits(1.0)), bits(1.0));
}

#[test]
fn kept_layouts_are_taken_over_only_where_they_fit() {
    let mut layout = ColumnLayout::new(3, bits(110.0));
    layout.restore(vec![2, 2, 0], &vec![], vec![bits(90.0); 3]);
    assert_eq!(layout.order(), &[0, 1, 2]);
    layout.restore(vec![2, 0], &vec![], vec![bits(90.0); 2]);
    assert_eq!(layout.order(), &[0, 1, 2]);
    layout.restore(vec![2, 0, 1], &vec![0, 9], vec![bits(9.0); 3]);
    assert_eq!(layout.order(), &[2, 0, 1]);
    assert_eq!(layout.visible(), &[2, 1]);
    assert_eq!(layout.hidden(), &BTreeSet::from([0]));
    assert_eq!(layout.width(0, 0), bits(72.0));
    assert!(layout.is_hidden(0));
    assert!(!layout.move_source(0, 1));
    assert!(!layout.move_source(1, 1));
    assert!(layout.move_source(1, -4));
    assert_eq!(layout.visible(), &[1, 2]);
}

#[test]
fn kept_layouts_come_back_by_name() {
    let names = vec!["a".to_string(), "b".to_string(), "c".to_string()];
    let mut layout = ColumnLayout::new(3, bits(110.0));
    layout.move_source(2, -2);
    layout.set_hidden(1, true);
    let kept = layout_preference(&names, &layout, &vec![110, 120, 130]).unwrap();
    assert_eq!(kept.schema_key, "a\u{1f}b\u{1f}c");
    assert_eq!(kept.order, vec!["c", "b", "a"]);
    assert_eq!(kept.hidden, vec!["b"]);
    assert_eq!(restored_order(&names, &kept.order), vec![2, 1, 0]);
    assert_eq!(columns_by_name(&names, &kept.hidden), vec![1]);
    assert_eq!(
        restored_widths(&names, &kept.widths),
        vec![Some(110), Some(120), Some(130)]
    );
    let newer = vec!["b".to_string(), "x".to_string(), "a".to_string()];
    assert_eq!(restored_order(&newer, &kept.order), vec![0, 2, 1]);
    assert_eq!(
        restored_widths(&newer, &kept.widths),
        vec![Some(120), None, Some(110)]
    );
    let many = vec!["n".to_string(); 257];
    assert_eq!(schema_key(&many), None);
}

#[test]
fn columns_are_found_whatever_their_case() {
    let names = vec![
        "Größe".to_string(),
        "name".to_string(),
        "GRÖSSE".to_string(),
    ];
    assert_eq!(search_columns(&names, "GRÖ"), vec![0, 2]);
    assert_eq!(search_columns(&names, ""), vec![0, 1, 2]);
    assert_eq!(search_columns(&names, "zzz"), Vec::<usize>::new());
    let many = vec!["n".to_string(); 200];
    assert_eq!(search_columns(&many, "N").len(), 128);
}

#[test]
fn clamps_untrusted_row_counts_for_the_egui_row_api() {
    assert_eq!(ui_row_count(u64::MAX), usize::MAX);
}

#[test]
fn formats_dataset_counts() {
    for (value, expected) in [
        (0, "0"),
        (999, "999"),
        (1000, "1,000"),
        (1_000_000_000, "1,000,000,000"),
        (u64::MAX, "18,446,744,073,709,551,615"),
    ] {
        assert_eq!(number(value), expected);
    }
}

fn field(name: &str, data_type: DataType, children: Vec<Field>) -> Field {
    Field {
        name: name.to_string(),
        data_type,
        type_text: format!("{data_type:?}"),
        nullable: true,
        children,
    }
}

#[test]
fn formats_real_metadata_and_nested_types() {
    assert_eq!(byte_unit(12_400_000_000), ByteUnit::Gigabytes);
    assert_eq!(format_time(Some(0)), "1970-01-01 00:00:00");
    assert_eq!(
        type_label(
            &field(
                "items",
                DataType::List,
                vec![field("item", DataType::Utf8, vec![])]
            ),
            "Utf8"
        ),
        "list<str>"
    );
}

#[test]
fn writes_times_sizes_and_types() {
    assert_eq!(format_time(Some(1_431_648_000)), "2015-05-15 00:00:00");
    assert_eq!(format_time(Some(-1)), "1969-12-31 23:59:59");
    assert_eq!(
        format_time(Some(8_000_000_000_000)),
        "+255479-11-28 14:13:20"
    );
    assert_eq!(format_time(Some(i64::MAX)), "Unavailable");
    assert_eq!(format_time(Some(i64::MIN)), "Unavailable");
    assert_eq!(format_time(None), "Unavailable");
    assert_eq!(byte_unit(999), ByteUnit::Bytes);
    assert_eq!(byte_unit(1_000), ByteUnit::Kilobytes);
    assert_eq!(byte_unit(1_000_000), ByteUnit::Megabytes);
    assert_eq!(type_label(&field("f", DataType::Float32, vec![]), "Float32"), "f32");
    assert_eq!(type_label(&field("b", DataType::Binary, vec![]), "Binary"), "Binary");
    assert_eq!(Spacing::Lg.points(), 12);
}

#[test]
fn says_what_is_under_way() {
    let idle = Activity {
        opening: false,
        exporting: false,
        charting: false,
        profiling: false,
        running_sql: false,
        loading_pages: false,
    };
    assert_eq!(idle.label(), None);
    assert_eq!(
        Activity {
            profiling: true,
            loading_pages: true,
            ..idle
        }
        .label(),
        Some("Profiling")
    );
    assert_eq!(Activity { opening: true, ..idle }.label(), Some("Opening"));
    let bar = StatusBar {
        status: "Ready: 3 rows × 2 columns",
        activity: None,
        has_error: true,
        selection: None,
        cached_pages: 1,
        columns: Some(2),
        rows: 4_000,
        path: Some("/tmp/x.parquet"),
    };
    assert_eq!(bar.message(), "Loaded /tmp/x.parquet");
    assert_eq!(bar.state(), "Error");
    assert_eq!(bar.size().unwrap(), "4,000 rows × 2 columns");
    assert_eq!(
        StatusBar {
            status: "Filter cleared",
            ..bar
        }
        .message(),
        "Filter cleared"
    );
    assert_eq!(opened_status(0, 2), "Opened empty dataset");
    assert_eq!(opened_status(3, 2), "Ready: 3 rows × 2 columns");
}

#[test]
fn writes_headings_and_labels() {
    let sort = Some(SortSpec::new(
        1,
        SortDirection::Descending,
        NullOrder::Last,
    ));
    assert_eq!(sort_heading(sort, 1, "id"), "id ↓");
    assert_eq!(sort_heading(sort, 0, "id"), "id");
    assert_eq!(sort_heading(None, 0, "id"), "id");
    assert_eq!(
        sorting_status("id", SortDirection::Ascending),
        "Sorting id ↑ (nulls last)"
    );
    assert_eq!(
        window_label(QueryKind::Sort, 10, 5),
        "Sorted rows 11–15 (bounded window)"
    );
    assert_eq!(
        history_label(&QueryHistoryEntry {
            sql: "SELECT 1".to_string(),
            timestamp_unix_secs: 0,
            duration_ms: 12,
            success: true,
            row_count: Some(3),
        }),
        "ok · 12 ms · 3 rows"
    );
    assert_eq!(
        group_label(&RowGroupInfo {
            index: 2,
            first_row: 10,
            row_count: 4,
        }),
        "2: rows 11–14 (4)"
    );
    assert_eq!(statistics_label(1, &None), "Group 1: statistics unavailable");
    assert_eq!(
        statistics_label(
            0,
            &Some(ColumnStatistics {
                min: Some("1".to_string()),
                max: None,
                null_count: Some(2),
                distinct_count: None,
            })
        ),
        "Group 0: min 1 · max unavailable\nnulls: 2 · distinct: unavailable"
    );
    assert_eq!(
        suggested_name(Some("trips"), pavi::export::ExportFormat::Csv),
        "trips-export.csv"
    );
    assert_eq!(
        suggested_name(None, pavi::export::ExportFormat::Parquet),
        "pavi-export.parquet"
    );
    assert_eq!(header_rows(true, true), 0);
    assert_eq!(header_rows(false, true), 2);
    assert_eq!(header_rows(false, false), 1);
}

#[test]
fn notices_tell_what_a_chart_leaves_out() {
    let model = |count: usize, capped: bool| pavi::chart::ChartModel {
        kind: pavi::chart::ChartKind::Line,
        values: pavi::chart::ChartValues::Points(vec![
            pavi::chart::ChartPoint { x: 0, y: 0 };
            count
        ]),
        input_rows: 9,
        skipped_rows: 0,
        input_capped: capped,
        reduced: false,
    };
    assert_eq!(
        chart_notice(&model(0, true)).unwrap(),
        "No chartable non-null values were returned."
    );
    assert_eq!(
        chart_notice(&model(2, true)).unwrap(),
        "Showing 2 chart values from 9 bounded input rows; query sampling stopped at 16384."
    );
    assert_eq!(chart_notice(&model(2, false)), None);
}

const NO_KEYS: GridKeys = GridKeys {
    up: false,
    down: false,
    page_up: false,
    page_down: false,
    left: false,
    right: false,
    home: false,
    end: false,
    shift: false,
};

#[test]
fn keys_move_the_selection() {
    let mut grid = GridState::default();
    assert_eq!(
        move_by_keys(&mut grid, GridKeys { down: true, ..NO_KEYS }, false, 0),
        None
    );
    grid.ready(100, 3);
    assert_eq!(move_by_keys(&mut grid, NO_KEYS, false, 0), None);
    assert_eq!(
        move_by_keys(&mut grid, GridKeys { down: true, ..NO_KEYS }, false, 0),
        Some(0)
    );
    assert_eq!(grid.selection, Some((0, 0)));
    move_by_keys(&mut grid, GridKeys { page_down: true, right: true, ..NO_KEYS }, false, 0);
    assert_eq!(grid.selection, Some((20, 1)));
    move_by_keys(&mut grid, GridKeys { end: true, shift: true, ..NO_KEYS }, false, 0);
    assert_eq!(grid.selection, Some((99, 1)));
    assert!(grid.is_selected(50, 1));
    move_by_keys(&mut grid, GridKeys { home: true, ..NO_KEYS }, false, 0);
    assert_eq!(grid.selection, Some((0, 1)));
    move_by_keys(&mut grid, GridKeys { page_up: true, left: true, ..NO_KEYS }, false, 0);
    assert_eq!(grid.selection, Some((0, 0)));
    assert_eq!(
        move_by_keys(&mut grid, GridKeys { down: true, ..NO_KEYS }, true, 0),
        None
    );
    assert_eq!(grid.selection, Some((1, 0)));
}

#[test]
fn entered_row_numbers_are_checked() {
    let mut grid = GridState::default();
    grid.ready(10, 2);
    assert_eq!(jump_to_input(&mut grid, None, " 3 "), JumpOutcome::Jumped(2));
    assert_eq!(grid.selection, Some((2, 0)));
    for input in ["", "0", "11", "x", "-1"] {
        assert_eq!(jump_to_input(&mut grid, None, input), JumpOutcome::NoSuchRow);
    }
    grid.ready(5, 2);
    assert_eq!(
        jump_to_input(&mut grid, Some((100, 5)), "103"),
        JumpOutcome::Jumped(102)
    );
    assert_eq!(grid.selection, Some((102, 0)));
    assert_eq!(
        jump_to_input(&mut grid, Some((100, 5)), "106"),
        JumpOutcome::OutsideWindow
    );
    assert_eq!(JumpOutcome::Jumped(2).status(), "Jumped to row 3");
    assert_eq!(
        JumpOutcome::NoSuchRow.status(),
        "Enter a row number within the current result set"
    );
    assert_eq!(
        JumpOutcome::OutsideWindow.status(),
        "That result row is outside the current bounded window"
    );
}

#[test]
fn shown_columns_lead_back_to_the_dataset() {
    let mut layout = ColumnLayout::new(3, bits(110.0));
    layout.set_hidden(0, true);
    assert_eq!(selected_source_column(Some((4, 1)), None, &layout), Some(2));
    assert_eq!(selected_source_column(Some((4, 2)), None, &layout), None);
    assert_eq!(selected_source_column(None, None, &layout), None);
    assert_eq!(visible_batch_columns(None, &layout), vec![0, 1]);
}

#[test]
fn copied_cells_stand_in_rows_and_columns() {
    let mut text = SelectionText::new();
    for (row, values) in [["a", "b"], ["c", "d"]].iter().enumerate() {
        for (column, value) in values.iter().enumerate() {
            text.push(value, start_of_cell(row == 0, column == 0)).unwrap();
        }
    }
    assert_eq!(text.finish(), "a\tb\nc\td");
    let mut long = SelectionText::new();
    long.push(&"x".repeat(MAX_CLIPBOARD_BYTES - 1), CellStart::First)
        .unwrap();
    assert!(long.push("y", CellStart::Column).is_err());
    long.push("", CellStart::Row).unwrap();
    assert_eq!(
        range_bounds(SelectionRange {
            anchor: (7, 1),
            focus: (2, 4),
        }),
        (2, 7, 1, 4)
    );
}

#[test]
fn commands_need_a_dataset_and_no_open_under_way() {
    let available = |has_dataset, opening| {
        ToolbarAvailability {
            has_dataset,
            opening,
        }
        .enabled(ToolbarCommand::Sql)
    };
    assert!(available(true, false));
    assert!(!available(true, true));
    assert!(!available(false, false));
    assert_eq!(Workspace::Grid.toggled(), Workspace::Sql);
    assert_eq!(Workspace::Sql.toggled(), Workspace::Grid);
}

#[test]
fn generations_move_on_until_the_last_one() {
    let first = GenerationId(7);
    let second = next_generation(first);
    let third = next_generation(second);
    assert_eq!(second, GenerationId(8));
    assert_eq!(third, GenerationId(9));
    assert_ne!(first, third);
    let last = GenerationId(u64::MAX);
    assert_eq!(next_generation(last), last);
}

#[test]
fn columns_are_as_wide_as_their_longest_text() {
    let cells = |texts: &[&str]| texts.iter().map(|text| text.to_string()).collect::<Vec<_>>();
    assert_eq!(widest_text("name", &cells(&[])), 4);
    assert_eq!(widest_text("", &cells(&["", "ab", "äöü", "c"])), 3);
    assert_eq!(widest_text("longest", &cells(&["ab"])), 7);
}

#[test]
fn methods_of_compression_are_named_once() {
    let label = |names: &[&str]| {
        compression_label(&names.iter().map(|name| name.to_string()).collect::<Vec<_>>())
    };
    assert_eq!(label(&[]), "");
    assert_eq!(label(&["SNAPPY", "SNAPPY"]), "SNAPPY");
    assert_eq!(label(&["SNAPPY", "ZSTD(3)", "SNAPPY", "GZIP"]), "SNAPPY, ZSTD(3), GZIP");
}
