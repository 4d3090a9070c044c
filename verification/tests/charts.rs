use pavi::chart::{
    histogram, reduce, ChartAccumulator, ChartBar, ChartConfig, ChartError, ChartInput, ChartKind,
    ChartModel, ChartPoint, ChartValues, HistogramBin, MAX_INPUT_ROWS,
};
use pavi::execution::ExecutionError;
use pavi::labels::{chart_status, chart_title};
use pavi::panels::{
    default_chart_columns, export_report, ChartPanel, ChartPoll, ChartSource, ProfilePanel,
};
use pavi::profile::{
    profile_event, ColumnProfile, FrequentValue, ProfileAccumulator, ProfileError, ProfileEvent,
    ProfileValue, MAX_DISTINCT_VALUES,
};
use pavi::runtime::GenerationId;
use pavi::schema::{DataType, Field};

fn locate(value: u64, min: u64, max: u64, bins: usize) -> usize {
    let (value, min, max) = (
        f64::from_bits(value),
        f64::from_bits(min),
        f64::from_bits(max),
    );
    ((value - min) / ((max - min) / bins as f64)) as usize
}

fn edge(min: u64, max: u64, bins: usize, index: usize) -> u64 {
    let (min, max) = (f64::from_bits(min), f64::from_bits(max));
    (min + (max - min) / bins as f64 * index as f64).to_bits()
}

fn plus(sum: u64, number: u64) -> u64 {
    (f64::from_bits(sum) + f64::from_bits(number)).to_bits()
}

fn divide(sum: u64, count: u64) -> u64 {
    (f64::from_bits(sum) / count as f64).to_bits()
}

fn ratio(sum: u64, count: u64) -> u64 {
    (sum as f64 / count as f64).to_bits()
}

fn field(name: &str, data_type: DataType) -> Field {
    Field {
        name: name.to_string(),
        data_type,
        type_text: format!("{data_type:?}"),
        nullable: true,
        children: Vec::new(),
    }
}

fn fields() -> Vec<Field> {
    vec![
        field("x", DataType::Int32),
        field("y", DataType::Float64),
        field("category", DataType::Utf8),
    ]
}

fn x_values() -> Vec<Option<u64>> {
    [Some(1.0_f64), Some(2.0), None, Some(4.0)]
        .map(|value| value.map(f64::to_bits))
        .to_vec()
}

fn y_values() -> Vec<Option<u64>> {
    [Some(10.0_f64), None, Some(30.0), Some(40.0)]
        .map(|value| value.map(f64::to_bits))
        .to_vec()
}

fn input(kind: ChartKind) -> ChartInput {
    match kind {
        ChartKind::Line | ChartKind::Scatter => ChartInput::Points {
            x: x_values(),
            y: y_values(),
        },
        ChartKind::Bar => ChartInput::Bars {
            labels: [Some("a"), Some("b"), Some("c"), None]
                .map(|label| label.map(str::to_string))
                .to_vec(),
            values: y_values(),
        },
        ChartKind::Histogram => ChartInput::Values(x_values()),
    }
}

fn config(kind: ChartKind) -> ChartConfig {
    ChartConfig {
        kind,
        x_column: if kind == ChartKind::Bar {
            "category".to_string()
        } else {
            "x".to_string()
        },
        y_column: "y".to_string(),
        point_limit: 2,
        bins: 2,
        title: String::new(),
    }
}

#[test]
fn builds_line_scatter_and_bar_charts_while_skipping_nulls() {
    for kind in [ChartKind::Line, ChartKind::Scatter, ChartKind::Bar] {
        let mut accumulator = ChartAccumulator::new(config(kind)).unwrap();
        assert!(accumulator.push_batch(&fields(), &input(kind)).unwrap());
        let model = accumulator.finish(locate, edge);
        assert_eq!(model.input_rows, 2);
        assert_eq!(model.skipped_rows, 2);
        assert!(!model.is_empty());
    }
}

#[test]
fn charts_hold_the_values_that_were_given() {
    let mut line = ChartAccumulator::new(config(ChartKind::Line)).unwrap();
    line.push_batch(&fields(), &input(ChartKind::Line)).unwrap();
    assert_eq!(
        line.finish(locate, edge).values,
        ChartValues::Points(vec![
            ChartPoint {
                x: 1.0_f64.to_bits(),
                y: 10.0_f64.to_bits()
            },
            ChartPoint {
                x: 4.0_f64.to_bits(),
                y: 40.0_f64.to_bits()
            },
        ])
    );
    let mut bar = ChartAccumulator::new(config(ChartKind::Bar)).unwrap();
    bar.push_batch(&fields(), &input(ChartKind::Bar)).unwrap();
    let model = bar.finish(locate, edge);
    assert_eq!(
        model.values,
        ChartValues::Bars(vec![
            ChartBar {
                label: "a".to_string(),
                value: 10.0_f64.to_bits()
            },
            ChartBar {
                label: "c".to_string(),
                value: 30.0_f64.to_bits()
            },
        ])
    );
    assert_eq!(
        chart_status(&model, "query result"),
        "Bar chart: 2 values from query result (2 null/non-finite skipped)"
    );
    assert_eq!(chart_title(&model, "  "), "Bar chart");
    assert_eq!(chart_title(&model, "Mine"), "Mine");
}

#[test]
fn calculates_histograms_and_handles_empty_values() {
    let mut accumulator = ChartAccumulator::new(config(ChartKind::Histogram)).unwrap();
    accumulator
        .push_batch(&fields(), &input(ChartKind::Histogram))
        .unwrap();
    let model = accumulator.finish(locate, edge);
    let ChartValues::Histogram(bins) = model.values else {
        panic!("expected histogram");
    };
    assert_eq!(bins.iter().map(|bin| bin.count).sum::<usize>(), 3);

    let empty = ChartAccumulator::new(config(ChartKind::Histogram))
        .unwrap()
        .finish(locate, edge);
    assert!(empty.is_empty());
}

#[test]
fn histograms_span_the_values() {
    let values = [4.0_f64, 1.0, 2.0, f64::MIN_POSITIVE]
        .map(f64::to_bits)
        .to_vec();
    let bins = histogram(&values, 4, locate, edge);
    assert_eq!(
        bins.iter().map(|bin| bin.count).collect::<Vec<_>>(),
        vec![1, 1, 1, 1]
    );
    assert_eq!(bins[0].start, f64::MIN_POSITIVE.to_bits());
    assert_eq!(f64::from_bits(bins[3].end), 4.0);
    let zeros = [0.0_f64, -0.0].map(f64::to_bits).to_vec();
    assert_eq!(
        histogram(&zeros, 4, locate, edge),
        vec![HistogramBin {
            start: (-0.0_f64).to_bits(),
            end: 0.0_f64.to_bits(),
            count: 2
        }]
    );
    assert!(histogram(&vec![], 4, locate, edge).is_empty());
}

#[test]
fn reduces_deterministically_at_the_point_limit() {
    let values = (0..10)
        .map(|value| ChartPoint {
            x: (value as f64).to_bits(),
            y: (value as f64).to_bits(),
        })
        .collect();
    let reduced = reduce(values, 3);
    assert_eq!(
        reduced,
        vec![
            ChartPoint {
                x: 0.0_f64.to_bits(),
                y: 0.0_f64.to_bits()
            },
            ChartPoint {
                x: 4.0_f64.to_bits(),
                y: 4.0_f64.to_bits()
            },
            ChartPoint {
                x: 9.0_f64.to_bits(),
                y: 9.0_f64.to_bits()
            }
        ]
    );
}

#[test]
fn rejects_incompatible_columns_and_caps_input() {
    let mut accumulator = ChartAccumulator::new(config(ChartKind::Line)).unwrap();
    let invalid = vec![field("x", DataType::Utf8), field("y", DataType::Int32)];
    let one = || ChartInput::Points {
        x: vec![None],
        y: vec![Some(1.0_f64.to_bits())],
    };
    assert!(accumulator.push_batch(&invalid, &one()).is_err());

    let valid = vec![field("x", DataType::Int32), field("y", DataType::Int32)];
    let rows = MAX_INPUT_ROWS + 1;
    let numbers = || {
        (0..rows)
            .map(|row| Some((row as f64).to_bits()))
            .collect::<Vec<_>>()
    };
    let mut accumulator = ChartAccumulator::new(config(ChartKind::Line)).unwrap();
    assert!(
        !accumulator
            .push_batch(
                &valid,
                &ChartInput::Points {
                    x: numbers(),
                    y: numbers()
                }
            )
            .unwrap()
    );
    let model = accumulator.finish(locate, edge);
    assert!(model.input_capped);
    assert_eq!(model.input_rows, MAX_INPUT_ROWS);
    assert!(model.output_len() <= 2);
}

#[test]
fn chart_settings_are_checked() {
    let refused = |change: fn(&mut ChartConfig)| {
        let mut wanted = config(ChartKind::Line);
        change(&mut wanted);
        ChartAccumulator::new(wanted).unwrap_err().message()
    };
    assert_eq!(
        refused(|wanted| wanted.x_column = "  ".to_string()),
        "choose an X/value column"
    );
    assert_eq!(
        refused(|wanted| wanted.y_column = String::new()),
        "choose a Y column"
    );
    assert_eq!(
        refused(|wanted| wanted.point_limit = 1),
        "point limit must be between 2 and 16384"
    );
    assert_eq!(
        refused(|wanted| wanted.bins = 0),
        "histogram bins must be between 1 and 100"
    );
    let missing = ChartAccumulator::new(ChartConfig {
        x_column: "zz".to_string(),
        ..config(ChartKind::Line)
    })
    .unwrap();
    assert_eq!(
        missing.columns(&fields()).unwrap_err().message(),
        "query result has no column `zz`"
    );
    let bar = ChartAccumulator::new(ChartConfig {
        y_column: "category".to_string(),
        ..config(ChartKind::Bar)
    })
    .unwrap();
    assert!(matches!(
        bar.columns(&fields()),
        Err(ChartError::BarTypes)
    ));
    let histogram = ChartAccumulator::new(ChartConfig {
        x_column: "category".to_string(),
        ..config(ChartKind::Histogram)
    })
    .unwrap();
    assert!(matches!(
        histogram.columns(&fields()),
        Err(ChartError::HistogramTypes)
    ));
    let line = ChartAccumulator::new(config(ChartKind::Line)).unwrap();
    assert_eq!(line.columns(&fields()).unwrap(), (0, Some(1)));
    assert_eq!(ChartKind::all().len(), 4);
    assert_eq!(ChartConfig::default().point_limit, 2_000);
}

#[test]
fn chart_panels_follow_their_query() {
    let mut panel = ChartPanel::default();
    assert_eq!(panel.source.label(), "Chart SQL");
    assert_eq!(ChartSource::CurrentResult.label(), "Current result window");
    let generation = panel.restart();
    panel.accumulator = Some(ChartAccumulator::new(config(ChartKind::Line)).unwrap());
    assert!(!panel.apply_poll(ChartPoll::Pending, locate, edge));
    let rows = |generation_id| ChartPoll::Rows {
        generation_id,
        fields: fields(),
        input: input(ChartKind::Line),
    };
    assert!(panel.apply_poll(rows(generation), locate, edge));
    assert!(panel.apply_poll(ChartPoll::Finished, locate, edge));
    assert_eq!(panel.model.as_ref().unwrap().input_rows, 2);
    assert_eq!(
        panel.status,
        "Line chart: 2 values from query result (2 null/non-finite skipped)"
    );
    let generation = panel.restart();
    panel.accumulator = Some(ChartAccumulator::new(config(ChartKind::Line)).unwrap());
    panel.apply_poll(rows(GenerationId(generation.0 + 1)), locate, edge);
    assert_eq!(panel.status, "Ignored stale chart result");
    panel.apply_poll(rows(generation), locate, edge);
    assert_eq!(
        panel.error.as_deref(),
        Some("Chart query lost its bounded accumulator")
    );
    panel.apply_poll(ChartPoll::Failed(ExecutionError::Cancelled), locate, edge);
    assert_eq!(
        panel.error.as_deref(),
        Some("Chart query: query execution was cancelled")
    );
    panel.reset();
    assert_eq!(panel.status, "Dataset changed; chart results were cleared");
    assert!(panel.error.is_none());
    let names = vec!["a".to_string()];
    assert_eq!(
        default_chart_columns(&names),
        ("a".to_string(), "a".to_string())
    );
}

fn numbers(values: &[Option<i32>]) -> Vec<ProfileValue> {
    values
        .iter()
        .map(|value| match value {
            Some(value) => ProfileValue::Number {
                bits: f64::from(*value).to_bits(),
                text: value.to_string(),
            },
            None => ProfileValue::Null,
        })
        .collect()
}

fn texts(values: &[Option<&str>]) -> Vec<ProfileValue> {
    values
        .iter()
        .map(|value| value.map_or(ProfileValue::Null, |value| ProfileValue::Text(value.to_string())))
        .collect()
}

fn profile(name: &str, data_type: DataType, batches: Vec<Vec<ProfileValue>>) -> ColumnProfile {
    let mut accumulator = ProfileAccumulator::new(0, name.to_string(), data_type, None).unwrap();
    for batch in &batches {
        accumulator.push_batch(data_type, batch, plus).unwrap();
    }
    accumulator.finish(divide, ratio, locate, edge)
}

#[test]
fn profiles_numeric_values_nulls_exact_distinct_and_distribution() {
    let profile = profile(
        "number",
        DataType::Int32,
        vec![numbers(&[Some(1), None]), numbers(&[Some(3), Some(1)])],
    );
    assert_eq!(profile.row_count, 4);
    assert_eq!(profile.null_count, 1);
    assert_eq!(profile.non_null_count(), 3);
    assert_eq!(profile.distinct_count, 2);
    assert_eq!(profile.min.as_deref(), Some("1"));
    assert_eq!(profile.max.as_deref(), Some("3"));
    assert!((f64::from_bits(profile.mean.unwrap()) - 5.0 / 3.0).abs() < f64::EPSILON);
    assert_eq!(
        profile.frequent_values[0],
        FrequentValue {
            value: "1".to_string(),
            count: 2
        }
    );
    assert!(profile.distribution.is_some());
    assert!(!profile.distribution_sampled);
}

#[test]
fn profiles_strings_and_reports_length_statistics() {
    let profile = profile(
        "text",
        DataType::Utf8,
        vec![texts(&[Some("b"), None]), texts(&[Some("aa"), Some("b")])],
    );
    assert_eq!(profile.null_count, 1);
    assert_eq!(profile.distinct_count, 2);
    assert_eq!(profile.min.as_deref(), Some("aa"));
    assert_eq!(profile.max.as_deref(), Some("b"));
    let lengths = profile.string_lengths.unwrap();
    assert_eq!((lengths.min, lengths.max), (1, 2));
    assert_eq!(f64::from_bits(lengths.mean), 4.0 / 3.0);
    assert!(profile.distribution.is_none());
}

#[test]
fn empty_and_all_null_columns_have_clear_metrics() {
    let profile = profile("number", DataType::Int32, vec![numbers(&[None, None])]);
    assert_eq!(profile.row_count, 2);
    assert_eq!(profile.null_count, 2);
    assert_eq!(profile.distinct_count, 0);
    assert!(profile.min.is_none());
    assert!(profile.mean.is_none());
}

#[test]
fn rejects_unsupported_values_and_unbounded_exact_distinct_state() {
    assert!(ProfileAccumulator::new(0, "binary".to_string(), DataType::Binary, None).is_err());
    let mut accumulator =
        ProfileAccumulator::new(0, "text".to_string(), DataType::Utf8, None).unwrap();
    for index in 0..MAX_DISTINCT_VALUES {
        accumulator.record_distinct(&index.to_string()).unwrap();
    }
    assert!(accumulator.record_distinct("one-too-many").is_err());
    assert!(accumulator.record_distinct("17").is_ok());
    assert!(matches!(
        accumulator.record_distinct(&"x".repeat(129)),
        Err(ProfileError::ValueTooLong)
    ));
}

#[test]
fn labels_bounded_numeric_distribution_as_sampled() {
    let profile = profile(
        "number",
        DataType::Int32,
        vec![numbers(&vec![Some(1); MAX_INPUT_ROWS + 1])],
    );
    assert!(profile.distribution_sampled);
    assert_eq!(profile.distinct_count, 1);
}

#[test]
fn profiling_refuses_what_it_cannot_keep_exactly() {
    let refused = |name: &str, data_type| {
        ProfileAccumulator::new(0, name.to_string(), data_type, None)
            .unwrap_err()
            .message("Binary")
    };
    assert_eq!(
        refused("b", DataType::Binary),
        "profiling does not support Binary; use Inspector metadata instead"
    );
    assert_eq!(refused(" ", DataType::Int32), "choose an X/value column");
    let mut accumulator =
        ProfileAccumulator::new(0, "n".to_string(), DataType::Float64, None).unwrap();
    assert!(matches!(
        accumulator.push_batch(DataType::Int32, &vec![], plus),
        Err(ProfileError::TypeChanged)
    ));
    let number = |value: f64| ProfileValue::Number {
        bits: value.to_bits(),
        text: value.to_string(),
    };
    let values = vec![number(f64::NAN), number(-0.0), number(0.0), number(-2.5)];
    accumulator
        .push_batch(DataType::Float64, &values, plus)
        .unwrap();
    assert!(matches!(
        accumulator.push_batch(
            DataType::Float64,
            &vec![number(1e300), number(f64::MAX), number(f64::MAX)],
            plus
        ),
        Err(ProfileError::ValueTooLong) | Err(ProfileError::MeanOverflow)
    ));
    let mut bytes = ProfileAccumulator::new(0, "t".to_string(), DataType::Utf8, None).unwrap();
    let mut filled = Ok(());
    for index in 0..MAX_DISTINCT_VALUES {
        filled = bytes.record_distinct(&format!("{index:0>128}"));
    }
    assert!(filled.is_ok());
    assert!(matches!(
        bytes.record_distinct("x"),
        Err(ProfileError::TooManyValues)
    ));
    let mut spaced = ProfileAccumulator::new(0, " n".to_string(), DataType::Int32, None).unwrap();
    assert!(matches!(
        spaced.push_batch(DataType::Int32, &numbers(&[Some(1)]), plus),
        Err(ProfileError::Chart(ChartError::NoColumn(_)))
    ));
}

#[test]
fn frequent_values_are_listed_by_count_and_then_by_text() {
    let mut values = Vec::new();
    for (text, count) in [("d", 1), ("b", 3), ("a", 1), ("c", 3), ("e", 2)] {
        values.extend(vec![Some(text); count]);
    }
    for index in 0..10 {
        values.push(Some(["k", "l", "m", "n", "o", "p", "q", "r", "s", "t"][index]));
    }
    let profile = profile("text", DataType::Utf8, vec![texts(&values)]);
    assert_eq!(profile.distinct_count, 15);
    assert_eq!(
        profile
            .frequent_values
            .iter()
            .map(|value| (value.value.as_str(), value.count))
            .collect::<Vec<_>>(),
        vec![
            ("b", 3),
            ("c", 3),
            ("e", 2),
            ("a", 1),
            ("d", 1),
            ("k", 1),
            ("l", 1),
            ("m", 1),
            ("n", 1),
            ("o", 1)
        ]
    );
}

#[test]
fn panels_drop_what_has_gone_stale() {
    let mut panel = ProfilePanel::default();
    let generation = panel.restart();
    panel.started(2);
    let made = profile("n", DataType::Int32, vec![numbers(&[Some(1), Some(2)])]);
    panel.apply_event(profile_event(Ok(made), false, generation));
    assert_eq!(panel.status, "Profiled 2 rows");
    assert!(panel.result.is_some());
    panel.apply_event(ProfileEvent::Failed {
        generation: GenerationId(generation.0 + 1),
        error: "x".to_string(),
    });
    assert_eq!(panel.status, "Ignored stale profile result");
    assert!(panel.error.is_none());
    panel.apply_event(profile_event(Err("boom".to_string()), false, generation));
    assert_eq!(panel.error.as_deref(), Some("Profile: boom"));
    panel.started(1);
    panel.stop();
    assert_eq!(panel.status, "Profile cancelled");
    panel.reset();
    assert!(panel.result.is_none());
    assert!(matches!(
        profile_event(Err("x".to_string()), true, generation),
        ProfileEvent::Cancelled { .. }
    ));
    let event = pavi::export::ExportEvent::Finished {
        generation,
        rows: 5,
    };
    assert_eq!(
        export_report(&event, generation, "/tmp/x.csv"),
        Some((
            "Export complete: 5 rows written to /tmp/x.csv".to_string(),
            true
        ))
    );
    assert_eq!(
        export_report(&event, GenerationId(generation.0 + 1), "/tmp/x.csv"),
        None
    );
}

#[test]
fn models_say_how_much_they_hold() {
    let model = ChartModel {
        kind: ChartKind::Line,
        values: ChartValues::Points(vec![ChartPoint { x: 0, y: 0 }; 2]),
        input_rows: 5,
        skipped_rows: 0,
        input_capped: true,
        reduced: true,
    };
    assert_eq!(model.output_len(), 2);
    assert_eq!(
        chart_status(&model, "x"),
        "Line chart: 5 values from x (input capped at 16384) (reduced to 2 points)"
    );
}
