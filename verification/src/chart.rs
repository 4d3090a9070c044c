//! Collecting the values of a chart from the rows of a query. Floating-point
//! numbers are held by their bits.

use crate::scalar::{
    float_key, float_rank, float_units, is_number_bits, law_float_key_orders_numbers,
    lemma_number_bits, lemma_zero_units,
};
use crate::schema::{field_names, find_column, DataType, Field};
use crate::seqs::first_index;
use crate::text::{cat3, chars_of, trim, trimmed};
use vstd::prelude::*;

verus! {

pub const DEFAULT_POINT_LIMIT: usize = 2000;

/// How many rows a chart looks at.
pub const MAX_INPUT_ROWS: usize = 16384;

#[derive(Clone, Copy, Debug, PartialEq, Eq, Structural)]
pub enum ChartKind {
    Line,
    Bar,
    Scatter,
    Histogram,
}

/// What the user wants to see.
#[derive(Debug)]
pub struct ChartConfig {
    pub kind: ChartKind,
    pub x_column: String,
    pub y_column: String,
    pub point_limit: usize,
    pub bins: usize,
    pub title: String,
}

impl ChartConfig {
    /// Whether both say the same.
    pub open spec fn same_as(&self, other: &Self) -> bool {
        &&& self.kind == other.kind
        &&& self.x_column@ == other.x_column@
        &&& self.y_column@ == other.y_column@
        &&& self.point_limit == other.point_limit
        &&& self.bins == other.bins
        &&& self.title@ == other.title@
    }

    pub fn copy(&self) -> (copy: Self)
        ensures
            copy.same_as(self),
    {
        ChartConfig {
            kind: self.kind,
            x_column: self.x_column.as_str().to_owned(),
            y_column: self.y_column.as_str().to_owned(),
            point_limit: self.point_limit,
            bins: self.bins,
            title: self.title.as_str().to_owned(),
        }
    }
}

#[derive(Clone, Copy, Debug, PartialEq, Eq, Structural)]
pub struct ChartPoint {
    pub x: u64,
    pub y: u64,
}

#[derive(Debug, PartialEq, Eq)]
pub struct ChartBar {
    pub label: String,
    pub value: u64,
}

#[derive(Clone, Copy, Debug, PartialEq, Eq, Structural)]
pub struct HistogramBin {
    pub start: u64,
    pub end: u64,
    pub count: usize,
}

#[derive(Debug, PartialEq, Eq)]
pub enum ChartValues {
    Points(Vec<ChartPoint>),
    Bars(Vec<ChartBar>),
    Histogram(Vec<HistogramBin>),
}

/// A chart that is ready to be drawn.
#[derive(Debug, PartialEq, Eq)]
pub struct ChartModel {
    pub kind: ChartKind,
    pub values: ChartValues,
    pub input_rows: usize,
    pub skipped_rows: usize,
    pub input_capped: bool,
    pub reduced: bool,
}

/// Why a chart cannot be made.
#[derive(Debug)]
pub enum ChartError {
    NoX,
    NoY,
    PointLimit,
    Bins,
    NoColumn(String),
    LineTypes,
    BarTypes,
    HistogramTypes,
}

/// What an error says.
pub enum ChartErrorModel {
    NoX,
    NoY,
    PointLimit,
    Bins,
    NoColumn(Seq<char>),
    LineTypes,
    BarTypes,
    HistogramTypes,
}

/// The values of the charted columns in some rows; none where a value is missing.
#[derive(Debug)]
pub enum ChartInput {
    Points { x: Vec<Option<u64>>, y: Vec<Option<u64>> },
    Bars { labels: Vec<Option<String>>, values: Vec<Option<u64>> },
    Values(Vec<Option<u64>>),
}

/// A value that is charted.
#[derive(Debug)]
pub enum RawValue {
    Point(ChartPoint),
    Bar(ChartBar),
    Histogram(u64),
}

/// A value that is charted, as a mathematical value.
pub enum RawModel {
    Point(ChartPoint),
    Bar(Seq<char>, u64),
    Histogram(u64),
}

/// Collects the values of a chart, and nothing else of the rows.
#[derive(Debug)]
pub struct ChartAccumulator {
    config: ChartConfig,
    values: Vec<RawValue>,
    skipped_rows: usize,
    input_capped: bool,
}

/// What was collected.
pub struct ChartState {
    pub values: Seq<RawModel>,
    pub skipped_rows: int,
    pub input_capped: bool,
}

impl View for ChartError {
    type V = ChartErrorModel;

    open spec fn view(&self) -> ChartErrorModel {
        match self {
            ChartError::NoX => ChartErrorModel::NoX,
            ChartError::NoY => ChartErrorModel::NoY,
            ChartError::PointLimit => ChartErrorModel::PointLimit,
            ChartError::Bins => ChartErrorModel::Bins,
            ChartError::NoColumn(name) => ChartErrorModel::NoColumn(name@),
            ChartError::LineTypes => ChartErrorModel::LineTypes,
            ChartError::BarTypes => ChartErrorModel::BarTypes,
            ChartError::HistogramTypes => ChartErrorModel::HistogramTypes,
        }
    }
}

/// The message that the user sees for an error.
pub open spec fn chart_error_text(error: ChartErrorModel) -> Seq<char> {
    match error {
        ChartErrorModel::NoX => "choose an X/value column"@,
        ChartErrorModel::NoY => "choose a Y column"@,
        ChartErrorModel::PointLimit => "point limit must be between 2 and 16384"@,
        ChartErrorModel::Bins => "histogram bins must be between 1 and 100"@,
        ChartErrorModel::NoColumn(name) => "query result has no column `"@ + name + "`"@,
        ChartErrorModel::LineTypes => {
            "line and scatter charts require numeric, date, or timestamp X and Y columns"@
        },
        ChartErrorModel::BarTypes => {
            "bar charts require a string or numeric X column and a numeric Y column"@
        },
        ChartErrorModel::HistogramTypes => {
            "histograms require a numeric, date, or timestamp value column"@
        },
    }
}

impl ChartError {
    /// The message that the user sees.
    pub open spec fn message_text(self) -> Seq<char> {
        chart_error_text(self@)
    }

    /// The message that the user sees.
    pub fn message(&self) -> (text: String)
        ensures
            text@ == self.message_text(),
    {
        match self {
            ChartError::NoX => "choose an X/value column".to_owned(),
            ChartError::NoY => "choose a Y column".to_owned(),
            ChartError::PointLimit => "point limit must be between 2 and 16384".to_owned(),
            ChartError::Bins => "histogram bins must be between 1 and 100".to_owned(),
            ChartError::NoColumn(name) => cat3("query result has no column `", name.as_str(), "`"),
            ChartError::LineTypes => {
                "line and scatter charts require numeric, date, or timestamp X and Y columns".to_owned()
            },
            ChartError::BarTypes => {
                "bar charts require a string or numeric X column and a numeric Y column".to_owned()
            },
            ChartError::HistogramTypes => {
                "histograms require a numeric, date, or timestamp value column".to_owned()
            },
        }
    }
}

impl ChartKind {
    pub open spec fn label_text(self) -> Seq<char> {
        match self {
            ChartKind::Line => "Line"@,
            ChartKind::Bar => "Bar"@,
            ChartKind::Scatter => "Scatter"@,
            ChartKind::Histogram => "Histogram"@,
        }
    }

    pub fn label(self) -> (label: &'static str)
        ensures
            label@ == self.label_text(),
    {
        match self {
            ChartKind::Line => "Line",
            ChartKind::Bar => "Bar",
            ChartKind::Scatter => "Scatter",
            ChartKind::Histogram => "Histogram",
        }
    }

    /// The kinds that the user can choose from.
    pub fn all() -> (kinds: Vec<ChartKind>)
        ensures
            kinds@ == seq![
                ChartKind::Line,
                ChartKind::Bar,
                ChartKind::Scatter,
                ChartKind::Histogram,
            ],
    {
        vec![ChartKind::Line, ChartKind::Bar, ChartKind::Scatter, ChartKind::Histogram]
    }
}

impl ChartConfig {
    /// Nothing has been chosen yet.
    pub open spec fn is_plain(&self) -> bool {
        &&& self.kind == ChartKind::Line
        &&& self.x_column@ == Seq::<char>::empty()
        &&& self.y_column@ == Seq::<char>::empty()
        &&& self.point_limit == DEFAULT_POINT_LIMIT
        &&& self.bins == 20
        &&& self.title@ == Seq::<char>::empty()
    }
}

impl Default for ChartConfig {
    fn default() -> (config: Self)
        ensures
            config.is_plain(),
    {
        ChartConfig {
            kind: ChartKind::Line,
            x_column: String::new(),
            y_column: String::new(),
            point_limit: DEFAULT_POINT_LIMIT,
            bins: 20,
            title: String::new(),
        }
    }
}

/// Whether no bin counts anything.
pub open spec fn all_empty(bins: Seq<HistogramBin>) -> bool {
    forall|i: int| 0 <= i < bins.len() ==> (#[trigger] bins[i]).count == 0
}

impl ChartModel {
    /// How many points, bars or bins there are.
    pub open spec fn output_count(&self) -> nat {
        match self.values {
            ChartValues::Points(values) => values@.len(),
            ChartValues::Bars(values) => values@.len(),
            ChartValues::Histogram(values) => values@.len(),
        }
    }

    /// Whether there is nothing to draw.
    pub fn is_empty(&self) -> (empty: bool)
        ensures
            empty == match self.values {
                ChartValues::Points(values) => values@.len() == 0,
                ChartValues::Bars(values) => values@.len() == 0,
                ChartValues::Histogram(values) => all_empty(values@),
            },
    {
        match &self.values {
            ChartValues::Points(values) => values.len() == 0,
            ChartValues::Bars(values) => values.len() == 0,
            ChartValues::Histogram(values) => {
                let mut i: usize = 0;
                while i < values.len()
                    invariant
                        i <= values@.len(),
                        self.values == ChartValues::Histogram(*values),
                        forall|k: int| 0 <= k < i ==> (#[trigger] values@[k]).count == 0,
                    decreases values@.len() - i,
                {
                    if values[i].count != 0 {
                        assert(values@[i as int].count != 0);
                        assert(!all_empty(values@));
                        return false;
                    }
                    i = i + 1;
                }
                true
            },
        }
    }

    pub fn output_len(&self) -> (len: usize)
        ensures
            len == self.output_count(),
    {
        match &self.values {
            ChartValues::Points(values) => values.len(),
            ChartValues::Bars(values) => values.len(),
            ChartValues::Histogram(values) => values.len(),
        }
    }
}

// ---------------------------------------------------------------------------
// Which columns can be charted
// ---------------------------------------------------------------------------

/// The types whose values stand for numbers.
pub open spec fn charts_as_number(data_type: DataType) -> bool {
    data_type.numeric() || data_type == DataType::Date32 || data_type == DataType::Date64
        || data_type is Timestamp
}

/// The types whose values can label bars.
pub open spec fn charts_as_label(data_type: DataType) -> bool {
    charts_as_number(data_type) || data_type == DataType::Utf8
}

/// What is wrong with the types of the charted columns.
pub open spec fn types_fault(kind: ChartKind, x: DataType, y: Option<DataType>) -> Option<
    ChartErrorModel,
> {
    let y_numeric = y is Some && charts_as_number(y->0);
    match kind {
        ChartKind::Line | ChartKind::Scatter => if charts_as_number(x) && y_numeric {
            None
        } else {
            Some(ChartErrorModel::LineTypes)
        },
        ChartKind::Bar => if charts_as_label(x) && y_numeric {
            None
        } else {
            Some(ChartErrorModel::BarTypes)
        },
        ChartKind::Histogram => if charts_as_number(x) {
            None
        } else {
            Some(ChartErrorModel::HistogramTypes)
        },
    }
}

/// What is wrong with a configuration.
pub open spec fn config_fault(config: ChartConfig) -> Option<ChartErrorModel> {
    if trimmed(config.x_column@).len() == 0 {
        Some(ChartErrorModel::NoX)
    } else if config.kind != ChartKind::Histogram && trimmed(config.y_column@).len() == 0 {
        Some(ChartErrorModel::NoY)
    } else if config.point_limit < 2 || config.point_limit > MAX_INPUT_ROWS {
        Some(ChartErrorModel::PointLimit)
    } else if config.bins < 1 || config.bins > 100 {
        Some(ChartErrorModel::Bins)
    } else {
        None
    }
}

/// The columns that are charted, or what is wrong with them.
pub open spec fn charted_columns(config: ChartConfig, fields: Seq<Field>) -> Result<
    (int, Option<int>),
    ChartErrorModel,
> {
    let names = field_names(fields);
    let x_name = trimmed(config.x_column@);
    let y_name = trimmed(config.y_column@);
    match first_index(names, x_name) {
        None => Err(ChartErrorModel::NoColumn(x_name)),
        Some(x) => if config.kind == ChartKind::Histogram {
            match types_fault(config.kind, fields[x].data_type, None) {
                Some(error) => Err(error),
                None => Ok((x, None)),
            }
        } else {
            match first_index(names, y_name) {
                None => Err(ChartErrorModel::NoColumn(y_name)),
                Some(y) => match types_fault(
                    config.kind,
                    fields[x].data_type,
                    Some(fields[y].data_type),
                ) {
                    Some(error) => Err(error),
                    None => Ok((x, Some(y))),
                },
            }
        },
    }
}

/// Whether values of this type stand for numbers.
pub fn numeric_type(data_type: DataType) -> (yes: bool)
    ensures
        yes == charts_as_number(data_type),
{
    match data_type {
        DataType::Date32 | DataType::Date64 | DataType::Timestamp { .. } => true,
        _ => data_type.supports_numeric(),
    }
}

/// Whether values of this type can label bars.
pub fn label_type(data_type: DataType) -> (yes: bool)
    ensures
        yes == charts_as_label(data_type),
{
    numeric_type(data_type) || data_type == DataType::Utf8
}

fn validate_types(kind: ChartKind, x: DataType, y: Option<DataType>) -> (result: Result<
    (),
    ChartError,
>)
    ensures
        match types_fault(kind, x, y) {
            None => result is Ok,
            Some(error) => result is Err && result->Err_0@ == error,
        },
{
    let y_numeric: bool = match y {
        Some(y) => numeric_type(y),
        None => false,
    };
    match kind {
        ChartKind::Line | ChartKind::Scatter => if !numeric_type(x) || !y_numeric {
            return Err(ChartError::LineTypes);
        },
        ChartKind::Bar => if !label_type(x) || !y_numeric {
            return Err(ChartError::BarTypes);
        },
        ChartKind::Histogram => if !numeric_type(x) {
            return Err(ChartError::HistogramTypes);
        },
    }
    Ok(())
}

// ---------------------------------------------------------------------------
// Collecting values
// ---------------------------------------------------------------------------

/// Whether a number is neither infinite nor undefined: the bits of its exponent
/// are not all set.
pub open spec fn finite(bits: u64) -> bool {
    (bits as int / 0x10_0000_0000_0000) % 2048 != 2047
}

fn is_finite(bits: u64) -> (yes: bool)
    ensures
        yes == finite(bits),
{
    (bits / 0x10_0000_0000_0000) % 2048 != 2047
}

/// Whether a number is undefined.
pub open spec fn undefined(bits: u64) -> bool {
    !finite(bits) && bits as int % 0x10_0000_0000_0000 != 0
}

/// Whether two numbers are equal. The two zeros are.
pub open spec fn same_number(a: u64, b: u64) -> bool {
    !undefined(a) && !undefined(b) && (a == b || (a % 0x8000_0000_0000_0000 == 0 && b
        % 0x8000_0000_0000_0000 == 0))
}

fn equal_numbers(a: u64, b: u64) -> (yes: bool)
    ensures
        yes == same_number(a, b),
{
    let a_undefined: bool = !is_finite(a) && a % 0x10_0000_0000_0000 != 0;
    let b_undefined: bool = !is_finite(b) && b % 0x10_0000_0000_0000 != 0;
    !a_undefined && !b_undefined && (a == b || (a % 0x8000_0000_0000_0000 == 0 && b
        % 0x8000_0000_0000_0000 == 0))
}

impl ChartInput {
    /// Each value has its partner.
    pub open spec fn wf(&self) -> bool {
        match self {
            ChartInput::Points { x, y } => x@.len() == y@.len(),
            ChartInput::Bars { labels, values } => labels@.len() == values@.len(),
            ChartInput::Values(_) => true,
        }
    }

    /// The values are those that a chart of this kind needs.
    pub open spec fn suits(&self, kind: ChartKind) -> bool {
        match kind {
            ChartKind::Line | ChartKind::Scatter => self is Points,
            ChartKind::Bar => self is Bars,
            ChartKind::Histogram => self is Values,
        }
    }

    /// How many rows there are.
    pub open spec fn row_count(&self) -> nat {
        match self {
            ChartInput::Points { x, .. } => x@.len(),
            ChartInput::Bars { labels, .. } => labels@.len(),
            ChartInput::Values(values) => values@.len(),
        }
    }

    /// What is charted of a row; none where a value is missing or not finite.
    pub open spec fn charted(&self, row: int) -> Option<RawModel> {
        match self {
            ChartInput::Points { x, y } => match (x@[row], y@[row]) {
                (Some(x), Some(y)) => if finite(x) && finite(y) {
                    Some(RawModel::Point(ChartPoint { x, y }))
                } else {
                    None
                },
                _ => None,
            },
            ChartInput::Bars { labels, values } => match (labels@[row], values@[row]) {
                (Some(label), Some(value)) => if finite(value) {
                    Some(RawModel::Bar(label@, value))
                } else {
                    None
                },
                _ => None,
            },
            ChartInput::Values(values) => match values@[row] {
                Some(value) => if finite(value) {
                    Some(RawModel::Histogram(value))
                } else {
                    None
                },
                None => None,
            },
        }
    }

    fn rows(&self) -> (rows: usize)
        ensures
            rows == self.row_count(),
    {
        match self {
            ChartInput::Points { x, .. } => x.len(),
            ChartInput::Bars { labels, .. } => labels.len(),
            ChartInput::Values(values) => values.len(),
        }
    }

    fn value_at(&self, row: usize) -> (value: Option<RawValue>)
        requires
            self.wf(),
            row < self.row_count(),
        ensures
            match value {
                Some(raw) => self.charted(row as int) == Some(raw@),
                None => self.charted(row as int) is None,
            },
    {
        match self {
            ChartInput::Points { x, y } => match (x[row], y[row]) {
                (Some(x), Some(y)) => if is_finite(x) && is_finite(y) {
                    Some(RawValue::Point(ChartPoint { x, y }))
                } else {
                    None
                },
                _ => None,
            },
            ChartInput::Bars { labels, values } => match (&labels[row], values[row]) {
                (Some(label), Some(value)) => if is_finite(value) {
                    Some(RawValue::Bar(ChartBar { label: label.as_str().to_owned(), value }))
                } else {
                    None
                },
                _ => None,
            },
            ChartInput::Values(values) => match values[row] {
                Some(value) => if is_finite(value) {
                    Some(RawValue::Histogram(value))
                } else {
                    None
                },
                None => None,
            },
        }
    }
}

impl View for RawValue {
    type V = RawModel;

    open spec fn view(&self) -> RawModel {
        match self {
            RawValue::Point(point) => RawModel::Point(*point),
            RawValue::Bar(bar) => RawModel::Bar(bar.label@, bar.value),
            RawValue::Histogram(value) => RawModel::Histogram(*value),
        }
    }
}

/// What the values say.
pub open spec fn raw_models(values: Seq<RawValue>) -> Seq<RawModel> {
    values.map_values(|value: RawValue| value@)
}

/// What is collected once the rows from `from` on were looked at: a row whose
/// values are missing or not finite is skipped, and no more than
/// [`MAX_INPUT_ROWS`] are taken.
pub open spec fn collected(state: ChartState, input: &ChartInput, from: int) -> ChartState
    decreases input.row_count() - from,
{
    if from < 0 || from >= input.row_count() {
        state
    } else if state.values.len() == MAX_INPUT_ROWS {
        ChartState { input_capped: true, ..state }
    } else {
        match input.charted(from) {
            Some(value) => collected(
                ChartState { values: state.values.push(value), ..state },
                input,
                from + 1,
            ),
            None => collected(
                ChartState { skipped_rows: state.skipped_rows + 1, ..state },
                input,
                from + 1,
            ),
        }
    }
}

/// Taking rows in skips no more of them than there are.
pub proof fn lemma_skipped_grows(state: ChartState, input: &ChartInput, from: int)
    requires
        0 <= from,
    ensures
        collected(state, input, from).skipped_rows <= state.skipped_rows + if from
            < input.row_count() {
            input.row_count() - from
        } else {
            0
        },
    decreases input.row_count() - from,
{
    if from < input.row_count() && state.values.len() != MAX_INPUT_ROWS {
        match input.charted(from) {
            Some(value) => lemma_skipped_grows(
                ChartState { values: state.values.push(value), ..state },
                input,
                from + 1,
            ),
            None => lemma_skipped_grows(
                ChartState { skipped_rows: state.skipped_rows + 1, ..state },
                input,
                from + 1,
            ),
        }
    }
}

/// Whether looking at the rows from `from` on stops before the last one.
pub open spec fn stops_early(state: ChartState, input: &ChartInput, from: int) -> bool
    decreases input.row_count() - from,
{
    if from < 0 || from >= input.row_count() {
        false
    } else if state.values.len() == MAX_INPUT_ROWS {
        true
    } else {
        match input.charted(from) {
            Some(value) => stops_early(
                ChartState { values: state.values.push(value), ..state },
                input,
                from + 1,
            ),
            None => stops_early(
                ChartState { skipped_rows: state.skipped_rows + 1, ..state },
                input,
                from + 1,
            ),
        }
    }
}

// ---------------------------------------------------------------------------
// Reducing points
// ---------------------------------------------------------------------------

/// At most `limit` of the values, evenly spread, the first and the last among
/// them.
pub open spec fn reduced<T>(values: Seq<T>, limit: nat) -> Seq<T> {
    if values.len() <= limit {
        values
    } else {
        Seq::new(limit, |i: int| values[spread(i, values.len() as int, limit as int)])
    }
}

/// The position among `len` values of the `i`-th of `limit` evenly spread ones.
pub open spec fn spread(i: int, len: int, limit: int) -> int {
    i * (len - 1) / (limit - 1)
}

proof fn lemma_spread(i: int, len: int, limit: int)
    requires
        2 <= limit < len,
        0 <= i < limit,
    ensures
        0 <= spread(i, len, limit) < len,
        i + 1 < limit ==> spread(i, len, limit) < spread(i + 1, len, limit),
        spread(0, len, limit) == 0,
        spread(limit - 1, len, limit) == len - 1,
{
    let last = len - 1;
    let gaps = limit - 1;
    assert(0 <= i * last / gaps <= last) by (nonlinear_arith)
        requires
            0 <= i <= gaps,
            0 < gaps <= last,
    ;
    assert((i + 1) * last / gaps >= i * last / gaps + 1) by (nonlinear_arith)
        requires
            0 <= i,
            0 < gaps <= last,
    ;
    assert(0 * last / gaps == 0) by (nonlinear_arith)
        requires
            0 < gaps,
    ;
    assert(gaps * last / gaps == last) by (nonlinear_arith)
        requires
            0 < gaps,
    ;
}

/// At most `limit` of the values, evenly spread, the first and the last among
/// them.
pub fn reduce<T>(values: Vec<T>, limit: usize) -> (kept: Vec<T>)
    requires
        limit >= 2,
        values@.len() * limit <= usize::MAX,
    ensures
        kept@ == reduced(values@, limit as nat),
{
    if values.len() <= limit {
        return values;
    }
    let ghost all = values@;
    let last: usize = values.len() - 1;
    let mut values = values;
    let mut backwards: Vec<T> = Vec::new();
    let mut i: usize = limit;
    proof {
        lemma_spread(limit - 1, all.len() as int, limit as int);
    }
    while i > 0
        invariant
            2 <= limit < all.len(),
            last == all.len() - 1,
            all.len() * limit <= usize::MAX,
            i <= limit,
            values@.len() <= all.len(),
            values@ == all.take(values@.len() as int),
            i > 0 ==> spread(i - 1, all.len() as int, limit as int) < values@.len(),
            backwards@.len() == limit - i,
            forall|k: int|
                0 <= k < limit - i ==> #[trigger] backwards@[k] == all[spread(
                    limit - 1 - k,
                    all.len() as int,
                    limit as int,
                )],
        decreases i,
    {
        let step: usize = i - 1;
        proof {
            lemma_spread(step as int, all.len() as int, limit as int);
            if step > 0 {
                lemma_spread(step - 1, all.len() as int, limit as int);
            }
            assert(step * last <= usize::MAX) by (nonlinear_arith)
                requires
                    step < limit,
                    last < all.len(),
                    all.len() * limit <= usize::MAX,
                    0 <= step,
                    0 <= last,
            ;
        }
        let position: usize = step * last / (limit - 1);
        while values.len() > position + 1
            invariant
                position == spread(step as int, all.len() as int, limit as int),
                position < values@.len() <= all.len(),
                values@ == all.take(values@.len() as int),
            decreases values@.len(),
        {
            let ghost count = values@.len();
            values.pop();
            assert(values@ =~= all.take(count - 1));
        }
        if let Some(value) = values.pop() {
            assert(value == all[position as int]);
            backwards.push(value);
        }
        assert(values@ =~= all.take(position as int));
        i = step;
    }
    let ghost picked = backwards@;
    let mut kept: Vec<T> = Vec::new();
    while backwards.len() > 0
        invariant
            backwards@.len() <= picked.len(),
            backwards@ == picked.take(backwards@.len() as int),
            kept@ == picked.skip(backwards@.len() as int).reverse(),
        decreases backwards@.len(),
    {
        let ghost count = backwards@.len();
        if let Some(value) = backwards.pop() {
            kept.push(value);
            assert(backwards@ =~= picked.take(count - 1));
            assert(kept@ =~= picked.skip(count - 1).reverse());
        }
    }
    assert(kept@ =~= reduced(all, limit as nat)) by {
        assert forall|k: int| 0 <= k < limit implies #[trigger] kept@[k] == all[spread(
            k,
            all.len() as int,
            limit as int,
        )] by {
            assert(kept@[k] == picked[limit - 1 - k]);
        }
    }
    kept
}

/// Reducing values keeps the first and the last one and their order, and gives no
/// more than the limit.
pub proof fn law_reduced_values_span_the_input<T>(values: Seq<T>, limit: nat)
    requires
        limit >= 2,
        values.len() > 0,
    ensures
        reduced(values, limit).len() <= limit,
        reduced(values, limit).len() > 0,
        reduced(values, limit)[0] == values[0],
        reduced(values, limit).last() == values.last(),
        values.len() > limit ==> forall|i: int|
            0 <= i < limit - 1 ==> (#[trigger] spread(i, values.len() as int, limit as int)) < spread(
                i + 1,
                values.len() as int,
                limit as int,
            ),
{
    if values.len() > limit {
        lemma_spread(0, values.len() as int, limit as int);
        assert forall|i: int| 0 <= i < limit - 1 implies (#[trigger] spread(
            i,
            values.len() as int,
            limit as int,
        )) < spread(i + 1, values.len() as int, limit as int) by {
            lemma_spread(i, values.len() as int, limit as int);
        }
    }
}

// ---------------------------------------------------------------------------
// Histograms
// ---------------------------------------------------------------------------

/// The least of the values in the total order of numbers.
pub open spec fn least(values: Seq<u64>) -> u64
    decreases values.len(),
{
    if values.len() <= 1 {
        values[0]
    } else {
        let before = least(values.drop_last());
        if float_key(values.last()) < float_key(before) {
            values.last()
        } else {
            before
        }
    }
}

/// The greatest of the values in the total order of numbers.
pub open spec fn greatest(values: Seq<u64>) -> u64
    decreases values.len(),
{
    if values.len() <= 1 {
        values[0]
    } else {
        let before = greatest(values.drop_last());
        if float_key(values.last()) >= float_key(before) {
            values.last()
        } else {
            before
        }
    }
}

/// The bin that a position means: the last one where there is none so far on.
pub open spec fn bin_of(position: usize, bins: usize) -> int {
    if position < bins {
        position as int
    } else {
        bins - 1
    }
}

/// How many of the positions mean a bin.
pub open spec fn tally(positions: Seq<usize>, bins: usize, bin: int) -> nat
    decreases positions.len(),
{
    if positions.len() == 0 {
        0
    } else {
        tally(positions.drop_last(), bins, bin) + if bin_of(positions.last(), bins) == bin {
            1nat
        } else {
            0nat
        }
    }
}

/// The tallies of the first `count` bins, added up.
pub open spec fn tally_total(positions: Seq<usize>, bins: usize, count: nat) -> nat
    decreases count,
{
    if count == 0 {
        0
    } else {
        tally_total(positions, bins, (count - 1) as nat) + tally(positions, bins, count - 1)
    }
}

proof fn lemma_tally_le(positions: Seq<usize>, bins: usize, bin: int)
    ensures
        tally(positions, bins, bin) <= positions.len(),
    decreases positions.len(),
{
    if positions.len() > 0 {
        lemma_tally_le(positions.drop_last(), bins, bin);
    }
}

proof fn lemma_tally_total(positions: Seq<usize>, bins: usize, count: nat)
    requires
        positions.len() > 0,
        bins > 0,
        count <= bins,
    ensures
        tally_total(positions, bins, count) == tally_total(positions.drop_last(), bins, count)
            + if bin_of(positions.last(), bins) < count {
            1nat
        } else {
            0nat
        },
    decreases count,
{
    if count > 0 {
        lemma_tally_total(positions, bins, (count - 1) as nat);
    }
}

/// Every value is counted in exactly one bin.
pub proof fn law_histogram_counts_every_value(positions: Seq<usize>, bins: usize)
    requires
        bins > 0,
    ensures
        tally_total(positions, bins, bins as nat) == positions.len(),
    decreases positions.len(),
{
    if positions.len() > 0 {
        law_histogram_counts_every_value(positions.drop_last(), bins);
        lemma_tally_total(positions, bins, bins as nat);
    } else {
        assert(positions =~= Seq::<usize>::empty());
        lemma_no_tally(bins, bins as nat);
    }
}

proof fn lemma_no_tally(bins: usize, count: nat)
    ensures
        tally_total(Seq::<usize>::empty(), bins, count) == 0,
    decreases count,
{
    if count > 0 {
        lemma_no_tally(bins, (count - 1) as nat);
    }
}

fn value_bounds(values: &Vec<u64>) -> (bounds: Option<(u64, u64)>)
    ensures
        bounds == (if values@.len() == 0 {
            None
        } else {
            Some((least(values@), greatest(values@)))
        }),
{
    if values.len() == 0 {
        return None;
    }
    let mut min: u64 = values[0];
    let mut max: u64 = values[0];
    let mut i: usize = 1;
    assert(values@.take(1)[0] == values@[0]);
    while i < values.len()
        invariant
            1 <= i <= values@.len(),
            min == least(values@.take(i as int)),
            max == greatest(values@.take(i as int)),
        decreases values@.len() - i,
    {
        let value: u64 = values[i];
        proof {
            assert(values@.take(i + 1).drop_last() =~= values@.take(i as int));
        }
        if float_rank(value) < float_rank(min) {
            min = value;
        }
        if float_rank(value) >= float_rank(max) {
            max = value;
        }
        i = i + 1;
    }
    assert(values@.take(i as int) =~= values@);
    Some((min, max))
}

/// The bins between the least and the greatest value, with the number of values
/// in each. `locate` gives the position of a value among bins of equal width
/// between two bounds, `edge` where such a bin begins.
pub fn histogram<L, E>(values: &Vec<u64>, bins: usize, locate: L, edge: E) -> (out: Vec<
    HistogramBin,
>) where L: Fn(u64, u64, u64, usize) -> usize, E: Fn(u64, u64, usize, usize) -> u64
    requires
        0 < bins < usize::MAX,
        forall|value: u64, min: u64, max: u64, count: usize|
            locate.requires((value, min, max, count)),
        forall|min: u64, max: u64, count: usize, index: usize|
            edge.requires((min, max, count, index)),
    ensures
        histogram_of(values@, bins, locate, edge, out@),
{
    let (min, max) = match value_bounds(values) {
        Some(bounds) => bounds,
        None => return Vec::new(),
    };
    if equal_numbers(min, max) {
        let mut out: Vec<HistogramBin> = Vec::new();
        out.push(HistogramBin { start: min, end: max, count: values.len() });
        return out;
    }
    let mut counts: Vec<usize> = Vec::new();
    let mut b: usize = 0;
    while b < bins
        invariant
            b <= bins,
            counts@.len() == b,
            forall|k: int| 0 <= k < b ==> counts@[k] == 0,
        decreases bins - b,
    {
        counts.push(0);
        b = b + 1;
    }
    let ghost mut positions: Seq<usize> = Seq::empty();
    let mut i: usize = 0;
    while i < values.len()
        invariant
            i <= values.len(),
            0 < bins,
            counts@.len() == bins,
            positions.len() == i,
            forall|value: u64, min: u64, max: u64, count: usize|
                locate.requires((value, min, max, count)),
            forall|k: int|
                0 <= k < i ==> locate.ensures((values@[k], min, max, bins), #[trigger] positions[k]),
            forall|k: int| 0 <= k < bins ==> #[trigger] counts@[k] == tally(positions, bins, k),
        decreases values.len() - i,
    {
        let position: usize = locate(values[i], min, max, bins);
        let bin: usize = if position < bins {
            position
        } else {
            bins - 1
        };
        let ghost before = positions;
        proof {
            lemma_tally_le(before, bins, bin as int);
            positions = positions.push(position);
            assert(positions.drop_last() =~= before);
        }
        let count: usize = counts[bin];
        counts.set(bin, count + 1);
        i = i + 1;
    }
    let mut out: Vec<HistogramBin> = Vec::new();
    let mut index: usize = 0;
    while index < bins
        invariant
            index <= bins,
            bins < usize::MAX,
            counts@.len() == bins,
            out@.len() == index,
            forall|min: u64, max: u64, count: usize, index: usize|
                edge.requires((min, max, count, index)),
            forall|k: int| 0 <= k < bins ==> #[trigger] counts@[k] == tally(positions, bins, k),
            forall|k: int|
                0 <= k < index ==> (#[trigger] out@[k]).count == tally(positions, bins, k)
                    && edge.ensures((min, max, bins, k as usize), out@[k].start) && edge.ensures(
                    (min, max, bins, (k + 1) as usize),
                    out@[k].end,
                ),
        decreases bins - index,
    {
        let start: u64 = edge(min, max, bins, index);
        let end: u64 = edge(min, max, bins, index + 1);
        out.push(HistogramBin { start, end, count: counts[index] });
        index = index + 1;
    }
    assert(spread_over(values@, min, max, bins, locate, edge, out@, positions));
    out
}

/// The bins count the values at these positions.
pub open spec fn spread_over<L, E>(
    values: Seq<u64>,
    min: u64,
    max: u64,
    bins: usize,
    locate: L,
    edge: E,
    out: Seq<HistogramBin>,
    positions: Seq<usize>,
) -> bool where L: Fn(u64, u64, u64, usize) -> usize, E: Fn(u64, u64, usize, usize) -> u64 {
    &&& out.len() == bins
    &&& positions.len() == values.len()
    &&& forall|i: int|
        0 <= i < values.len() ==> locate.ensures((values[i], min, max, bins), #[trigger] positions[i])
    &&& forall|b: int|
        0 <= b < bins ==> (#[trigger] out[b]).count == tally(positions, bins, b) && edge.ensures(
            (min, max, bins, b as usize),
            out[b].start,
        ) && edge.ensures((min, max, bins, (b + 1) as usize), out[b].end)
}

/// What the histogram of some values is: no bin without values, one bin where all
/// values are equal, else bins from the least to the greatest.
pub open spec fn histogram_of<L, E>(
    values: Seq<u64>,
    bins: usize,
    locate: L,
    edge: E,
    out: Seq<HistogramBin>,
) -> bool where L: Fn(u64, u64, u64, usize) -> usize, E: Fn(u64, u64, usize, usize) -> u64 {
    if values.len() == 0 {
        out.len() == 0
    } else {
        let min = least(values);
        let max = greatest(values);
        if same_number(min, max) {
            out == seq![HistogramBin { start: min, end: max, count: values.len() as usize }]
        } else {
            exists|positions: Seq<usize>|
                #[trigger] spread_over(values, min, max, bins, locate, edge, out, positions)
        }
    }
}

// ---------------------------------------------------------------------------
// The accumulator
// ---------------------------------------------------------------------------

/// Whether a value is of the kind that a chart needs.
pub open spec fn suits_kind(value: RawModel, kind: ChartKind) -> bool {
    match kind {
        ChartKind::Line | ChartKind::Scatter => value is Point,
        ChartKind::Bar => value is Bar,
        ChartKind::Histogram => value is Histogram,
    }
}

/// The points among the values.
pub open spec fn points_of(values: Seq<RawModel>) -> Seq<ChartPoint> {
    values.map_values(|value: RawModel| value->Point_0)
}

/// The labels and heights of the bars among the values.
pub open spec fn bars_of(values: Seq<RawModel>) -> Seq<(Seq<char>, u64)> {
    values.map_values(|value: RawModel| (value->Bar_0, value->Bar_1))
}

/// The numbers among the values.
pub open spec fn numbers_of(values: Seq<RawModel>) -> Seq<u64> {
    values.map_values(|value: RawModel| value->Histogram_0)
}

/// What the bars say.
pub open spec fn bar_models(bars: Seq<ChartBar>) -> Seq<(Seq<char>, u64)> {
    bars.map_values(|bar: ChartBar| (bar.label@, bar.value))
}

/// The model is the chart of what was collected: all values, or evenly spread ones
/// where there are more than may be drawn, or a histogram of them.
pub open spec fn chart_of<L, E>(
    model: ChartModel,
    settings: ChartConfig,
    state: ChartState,
    locate: L,
    edge: E,
) -> bool where L: Fn(u64, u64, u64, usize) -> usize, E: Fn(u64, u64, usize, usize) -> u64 {
    &&& model.kind == settings.kind
    &&& model.input_rows == state.values.len()
    &&& model.skipped_rows == state.skipped_rows
    &&& model.input_capped == state.input_capped
    &&& model.reduced == (model.kind != ChartKind::Histogram && model.input_rows
        > model.output_count())
    &&& match model.kind {
        ChartKind::Line | ChartKind::Scatter => model.values matches ChartValues::Points(points)
            && points@ == reduced(points_of(state.values), settings.point_limit as nat),
        ChartKind::Bar => model.values matches ChartValues::Bars(bars) && bar_models(bars@)
            == reduced(bars_of(state.values), settings.point_limit as nat),
        ChartKind::Histogram => model.values matches ChartValues::Histogram(bins) && histogram_of(
            numbers_of(state.values),
            settings.bins,
            locate,
            edge,
            bins@,
        ),
    }
}

impl View for ChartAccumulator {
    type V = ChartState;

    closed spec fn view(&self) -> ChartState {
        ChartState {
            values: raw_models(self.values@),
            skipped_rows: self.skipped_rows as int,
            input_capped: self.input_capped,
        }
    }
}

proof fn lemma_collected_suits(state: ChartState, input: &ChartInput, from: int, kind: ChartKind)
    requires
        input.suits(kind),
        forall|i: int| 0 <= i < state.values.len() ==> suits_kind(#[trigger] state.values[i], kind),
        state.values.len() <= MAX_INPUT_ROWS,
    ensures
        forall|i: int|
            0 <= i < collected(state, input, from).values.len() ==> suits_kind(
                #[trigger] collected(state, input, from).values[i],
                kind,
            ),
        collected(state, input, from).values.len() <= MAX_INPUT_ROWS,
    decreases input.row_count() - from,
{
    if from < 0 || from >= input.row_count() || state.values.len() == MAX_INPUT_ROWS {
    } else {
        match input.charted(from) {
            Some(value) => {
                lemma_collected_suits(
                    ChartState { values: state.values.push(value), ..state },
                    input,
                    from + 1,
                    kind,
                );
            },
            None => {
                lemma_collected_suits(
                    ChartState { skipped_rows: state.skipped_rows + 1, ..state },
                    input,
                    from + 1,
                    kind,
                );
            },
        }
    }
}

impl ChartAccumulator {
    /// What the user wants to see.
    pub closed spec fn settings(&self) -> ChartConfig {
        self.config
    }

    /// The configuration is sound, and what was collected suits it.
    pub open spec fn wf(&self) -> bool {
        &&& config_fault(self.settings()) is None
        &&& self@.values.len() <= MAX_INPUT_ROWS
        &&& 0 <= self@.skipped_rows <= usize::MAX
        &&& forall|i: int|
            0 <= i < self@.values.len() ==> suits_kind(
                #[trigger] self@.values[i],
                self.settings().kind,
            )
    }

    /// Nothing is collected yet.
    pub fn new(config: ChartConfig) -> (result: Result<Self, ChartError>)
        ensures
            match config_fault(config) {
                None => result matches Ok(accumulator) && accumulator.wf()
                    && accumulator.settings() == config && accumulator@ == (ChartState {
                    values: Seq::empty(),
                    skipped_rows: 0,
                    input_capped: false,
                }),
                Some(error) => result is Err && result->Err_0@ == error,
            },
    {
        if chars_of(trim(config.x_column.as_str()).as_str()).len() == 0 {
            return Err(ChartError::NoX);
        }
        if config.kind != ChartKind::Histogram && chars_of(
            trim(config.y_column.as_str()).as_str(),
        ).len() == 0 {
            return Err(ChartError::NoY);
        }
        if config.point_limit < 2 || config.point_limit > MAX_INPUT_ROWS {
            return Err(ChartError::PointLimit);
        }
        if config.bins < 1 || config.bins > 100 {
            return Err(ChartError::Bins);
        }
        let accumulator = ChartAccumulator {
            config,
            values: Vec::new(),
            skipped_rows: 0,
            input_capped: false,
        };
        assert(accumulator@.values =~= Seq::<RawModel>::empty());
        Ok(accumulator)
    }

    /// The columns to chart: the one for X or the values, and the one for Y.
    pub fn columns(&self, fields: &Vec<Field>) -> (result: Result<
        (usize, Option<usize>),
        ChartError,
    >)
        ensures
            match charted_columns(self.settings(), fields@) {
                Ok((x, y)) => result matches Ok((found_x, found_y)) && found_x == x && found_x
                    < fields@.len() && match y {
                    Some(y) => found_y matches Some(column) && column == y && column
                        < fields@.len(),
                    None => found_y is None,
                },
                Err(error) => result is Err && result->Err_0@ == error,
            },
    {
        let x_name = trim(self.config.x_column.as_str());
        let x: usize = match find_column(fields, x_name.as_str()) {
            Some(column) => column,
            None => return Err(ChartError::NoColumn(x_name)),
        };
        let mut y: Option<usize> = None;
        let mut y_type: Option<DataType> = None;
        if self.config.kind != ChartKind::Histogram {
            let y_name = trim(self.config.y_column.as_str());
            match find_column(fields, y_name.as_str()) {
                Some(column) => {
                    y = Some(column);
                    y_type = Some(fields[column].data_type);
                },
                None => return Err(ChartError::NoColumn(y_name)),
            }
        }
        validate_types(self.config.kind, fields[x].data_type, y_type)?;
        Ok((x, y))
    }

    /// Collects what is charted of some rows, and says whether more can be taken.
    pub fn push_rows(&mut self, input: &ChartInput) -> (more: bool)
        requires
            old(self).wf(),
            input.wf(),
            input.suits(old(self).settings().kind),
            old(self)@.skipped_rows + input.row_count() <= usize::MAX,
        ensures
            final(self).wf(),
            final(self).settings() == old(self).settings(),
            final(self)@ == collected(old(self)@, input, 0),
            more == !stops_early(old(self)@, input, 0),
    {
        let ghost start = self@;
        let rows: usize = input.rows();
        proof {
            lemma_collected_suits(start, input, 0, self.settings().kind);
        }
        let mut row: usize = 0;
        while row < rows
            invariant
                row <= rows,
                rows == input.row_count(),
                input.wf(),
                self.settings() == old(self).settings(),
                config_fault(old(self).settings()) is None,
                forall|i: int|
                    0 <= i < collected(start, input, 0).values.len() ==> suits_kind(
                        #[trigger] collected(start, input, 0).values[i],
                        old(self).settings().kind,
                    ),
                collected(start, input, 0).values.len() <= MAX_INPUT_ROWS,
                start == old(self)@,
                self@.values.len() <= MAX_INPUT_ROWS,
                0 <= self.skipped_rows <= start.skipped_rows + row,
                start.skipped_rows + input.row_count() <= usize::MAX,
                collected(self@, input, row as int) == collected(start, input, 0),
                stops_early(self@, input, row as int) == stops_early(start, input, 0),
            decreases rows - row,
        {
            if self.values.len() == MAX_INPUT_ROWS {
                self.input_capped = true;
                return false;
            }
            let ghost before = self@;
            match input.value_at(row) {
                Some(value) => {
                    let ghost model = value@;
                    self.values.push(value);
                    proof {
                        assert(self@.values =~= before.values.push(model));
                        assert(self@ == (ChartState {
                            values: before.values.push(model),
                            ..before
                        }));
                    }
                },
                None => {
                    self.skipped_rows = self.skipped_rows + 1;
                },
            }
            row = row + 1;
        }
        true
    }

    /// Collects what is charted of some rows of a query result, whose columns are
    /// `fields`, and says whether more can be taken.
    pub fn push_batch(&mut self, fields: &Vec<Field>, input: &ChartInput) -> (result: Result<
        bool,
        ChartError,
    >)
        requires
            old(self).wf(),
            input.wf(),
            input.suits(old(self).settings().kind),
            old(self)@.skipped_rows + input.row_count() <= usize::MAX,
        ensures
            final(self).wf(),
            final(self).settings() == old(self).settings(),
            match charted_columns(old(self).settings(), fields@) {
                Ok(_) => result == Ok::<bool, ChartError>(!stops_early(old(self)@, input, 0))
                    && final(self)@ == collected(old(self)@, input, 0),
                Err(error) => result is Err && result->Err_0@ == error && final(self)@ == old(
                    self,
                )@,
            },
    {
        match self.columns(fields) {
            Ok(_) => {},
            Err(error) => return Err(error),
        }
        Ok(self.push_rows(input))
    }

    /// The chart of what was collected. `locate` and `edge` place the values of a
    /// histogram: see [`histogram`].
    pub fn finish<L, E>(self, locate: L, edge: E) -> (model: ChartModel) where
        L: Fn(u64, u64, u64, usize) -> usize,
        E: Fn(u64, u64, usize, usize) -> u64,

        requires
            self.wf(),
            forall|value: u64, min: u64, max: u64, count: usize|
                locate.requires((value, min, max, count)),
            forall|min: u64, max: u64, count: usize, index: usize|
                edge.requires((min, max, count, index)),
        ensures
            chart_of(model, self.settings(), self@, locate, edge),
    {
        let ghost models = self@.values;
        let ghost kind = self.config.kind;
        let input_rows: usize = self.values.len();
        let skipped_rows: usize = self.skipped_rows;
        let input_capped: bool = self.input_capped;
        let limit: usize = self.config.point_limit;
        let held = self.values;
        let ghost raw = held@;
        assert(input_rows * limit <= usize::MAX) by (nonlinear_arith)
            requires
                input_rows <= 16384,
                limit <= 16384,
                0 <= input_rows,
                0 <= limit,
        ;
        assert forall|i: int| 0 <= i < raw.len() implies suits_kind((#[trigger] raw[i])@, kind) by {
            assert(models[i] == raw[i]@);
        }
        let (values, output_len): (ChartValues, usize) = match self.config.kind {
            ChartKind::Line | ChartKind::Scatter => {
                let points = points_held(held);
                let kept = reduce(points, limit);
                let len: usize = kept.len();
                (ChartValues::Points(kept), len)
            },
            ChartKind::Bar => {
                let bars = bars_held(held);
                let ghost all = bars@;
                assert(bar_models(all).len() == models.len());
                let kept = reduce(bars, limit);
                proof {
                    assert(bar_models(kept@) =~= reduced(bar_models(all), limit as nat)) by {
                        if all.len() > limit {
                            assert forall|i: int| 0 <= i < limit implies #[trigger] bar_models(
                                kept@,
                            )[i] == reduced(bar_models(all), limit as nat)[i] by {
                                lemma_spread(i, all.len() as int, limit as int);
                            }
                        }
                    }
                }
                let len: usize = kept.len();
                (ChartValues::Bars(kept), len)
            },
            ChartKind::Histogram => {
                let numbers = numbers_held(&held);
                let bins = histogram(&numbers, self.config.bins, locate, edge);
                let len: usize = bins.len();
                (ChartValues::Histogram(bins), len)
            },
        };
        let kind: ChartKind = self.config.kind;
        ChartModel {
            kind,
            values,
            input_rows,
            skipped_rows,
            input_capped,
            reduced: kind != ChartKind::Histogram && input_rows > output_len,
        }
    }
}

fn points_held(values: Vec<RawValue>) -> (points: Vec<ChartPoint>)
    requires
        forall|i: int| 0 <= i < values@.len() ==> (#[trigger] values@[i])@ is Point,
    ensures
        points@ == points_of(raw_models(values@)),
{
    let mut points: Vec<ChartPoint> = Vec::new();
    let mut i: usize = 0;
    while i < values.len()
        invariant
            i <= values@.len(),
            forall|i: int| 0 <= i < values@.len() ==> (#[trigger] values@[i])@ is Point,
            points@.len() == i,
            forall|k: int| 0 <= k < i ==> #[trigger] points@[k] == values@[k]@->Point_0,
        decreases values@.len() - i,
    {
        assert(values@[i as int]@ is Point);
        if let RawValue::Point(point) = &values[i] {
            points.push(*point);
        }
        i = i + 1;
    }
    assert(points@ =~= points_of(raw_models(values@)));
    points
}

fn bars_held(values: Vec<RawValue>) -> (bars: Vec<ChartBar>)
    requires
        forall|i: int| 0 <= i < values@.len() ==> (#[trigger] values@[i])@ is Bar,
    ensures
        bar_models(bars@) == bars_of(raw_models(values@)),
{
    let mut bars: Vec<ChartBar> = Vec::new();
    let mut i: usize = 0;
    while i < values.len()
        invariant
            i <= values@.len(),
            forall|i: int| 0 <= i < values@.len() ==> (#[trigger] values@[i])@ is Bar,
            bars@.len() == i,
            forall|k: int|
                0 <= k < i ==> (#[trigger] bars@[k]).label@ == values@[k]@->Bar_0 && bars@[k].value
                    == values@[k]@->Bar_1,
        decreases values@.len() - i,
    {
        assert(values@[i as int]@ is Bar);
        if let RawValue::Bar(bar) = &values[i] {
            bars.push(ChartBar { label: bar.label.as_str().to_owned(), value: bar.value });
        }
        i = i + 1;
    }
    assert(bar_models(bars@) =~= bars_of(raw_models(values@)));
    bars
}

fn numbers_held(values: &Vec<RawValue>) -> (numbers: Vec<u64>)
    requires
        forall|i: int| 0 <= i < values@.len() ==> (#[trigger] values@[i])@ is Histogram,
    ensures
        numbers@ == numbers_of(raw_models(values@)),
{
    let mut numbers: Vec<u64> = Vec::new();
    let mut i: usize = 0;
    while i < values.len()
        invariant
            i <= values@.len(),
            forall|i: int| 0 <= i < values@.len() ==> (#[trigger] values@[i])@ is Histogram,
            numbers@.len() == i,
            forall|k: int| 0 <= k < i ==> #[trigger] numbers@[k] == values@[k]@->Histogram_0,
        decreases values@.len() - i,
    {
        assert(values@[i as int]@ is Histogram);
        if let RawValue::Histogram(number) = &values[i] {
            numbers.push(*number);
        }
        i = i + 1;
    }
    assert(numbers@ =~= numbers_of(raw_models(values@)));
    numbers
}

// ---------------------------------------------------------------------------
// What charts show
// ---------------------------------------------------------------------------

/// A value is charted exactly where it is a number, whatever its sign: it lies between the
/// two infinities.
pub proof fn law_finite_values_are_numbers(bits: u64)
    ensures
        finite(bits) <==> is_number_bits(bits),
        bits < 0x8000_0000_0000_0000u64 ==> finite(bits) == finite(
            (bits + 0x8000_0000_0000_0000u64) as u64,
        ),
{
    lemma_number_bits(bits);
    if bits < 0x8000_0000_0000_0000u64 {
        let other = (bits + 0x8000_0000_0000_0000u64) as u64;
        assert(other as int / 0x10_0000_0000_0000 == bits as int / 0x10_0000_0000_0000 + 2048);
    }
}

/// A row is charted exactly where its values are there and are numbers, and then as they
/// are: the point of its X and Y, the bar of its label and height, or its value.
pub proof fn law_row_is_charted_as_it_is(input: &ChartInput, row: int)
    requires
        input.wf(),
        0 <= row < input.row_count(),
    ensures
        match *input {
            ChartInput::Points { x, y } => if x@[row] is Some && y@[row] is Some && is_number_bits(
                x@[row]->0,
            ) && is_number_bits(y@[row]->0) {
                input.charted(row) == Some(
                    RawModel::Point(ChartPoint { x: x@[row]->0, y: y@[row]->0 }),
                )
            } else {
                input.charted(row) is None
            },
            ChartInput::Bars { labels, values } => if labels@[row] is Some && values@[row] is Some
                && is_number_bits(values@[row]->0) {
                input.charted(row) == Some(RawModel::Bar(labels@[row]->0@, values@[row]->0))
            } else {
                input.charted(row) is None
            },
            ChartInput::Values(values) => if values@[row] is Some && is_number_bits(values@[row]->0) {
                input.charted(row) == Some(RawModel::Histogram(values@[row]->0))
            } else {
                input.charted(row) is None
            },
        },
{
    match *input {
        ChartInput::Points { x, y } => {
            if x@[row] is Some {
                law_finite_values_are_numbers(x@[row]->0);
            }
            if y@[row] is Some {
                law_finite_values_are_numbers(y@[row]->0);
            }
        },
        ChartInput::Bars { labels, values } => {
            if values@[row] is Some {
                law_finite_values_are_numbers(values@[row]->0);
            }
        },
        ChartInput::Values(values) => {
            if values@[row] is Some {
                law_finite_values_are_numbers(values@[row]->0);
            }
        },
    }
}

/// What is charted of the rows from `from` up to `to`, in their order.
pub open spec fn charted_rows(input: &ChartInput, from: int, to: int) -> Seq<RawModel>
    decreases to - from,
{
    if from >= to {
        Seq::empty()
    } else {
        match input.charted(from) {
            Some(value) => seq![value] + charted_rows(input, from + 1, to),
            None => charted_rows(input, from + 1, to),
        }
    }
}

/// A chart takes the rows as they come, up to some row: what can be charted of them is
/// collected in their order, and all others of them are counted as skipped, so that both
/// together make up the rows. It stops before the last row only once it holds as many values
/// as it may, and then says so.
pub proof fn law_rows_are_charted_or_skipped(state: ChartState, input: &ChartInput, from: int) -> (
    seen: int)
    requires
        0 <= from <= input.row_count(),
        state.values.len() <= MAX_INPUT_ROWS,
    ensures
        from <= seen <= input.row_count(),
        ({
            let after = collected(state, input, from);
            let taken = charted_rows(input, from, seen);
            &&& after.values == state.values + taken
            &&& taken.len() + (after.skipped_rows - state.skipped_rows) == seen - from
            &&& after.values.len() <= MAX_INPUT_ROWS
            &&& seen == input.row_count() ==> after.input_capped == state.input_capped
            &&& seen < input.row_count() ==> after.input_capped && after.values.len()
                == MAX_INPUT_ROWS
            &&& stops_early(state, input, from) <==> seen < input.row_count()
        }),
    decreases input.row_count() - from,
{
    if from >= input.row_count() {
        assert(state.values + charted_rows(input, from, from) =~= state.values);
        from
    } else if state.values.len() == MAX_INPUT_ROWS {
        assert(state.values + charted_rows(input, from, from) =~= state.values);
        from
    } else {
        match input.charted(from) {
            Some(value) => {
                let next = ChartState { values: state.values.push(value), ..state };
                let seen = law_rows_are_charted_or_skipped(next, input, from + 1);
                assert(state.values + (seq![value] + charted_rows(input, from + 1, seen))
                    =~= next.values + charted_rows(input, from + 1, seen));
                seen
            },
            None => {
                let next = ChartState { skipped_rows: state.skipped_rows + 1, ..state };
                law_rows_are_charted_or_skipped(next, input, from + 1)
            },
        }
    }
}

/// As long as no more values are there than may be drawn, all are drawn. Else the ones that
/// are drawn stand where equal steps from the first to the last value lead, rounded down.
pub proof fn law_reduced_values_are_evenly_spread<T>(values: Seq<T>, limit: nat, i: int)
    requires
        limit >= 2,
        0 <= i < reduced(values, limit).len(),
    ensures
        values.len() <= limit ==> reduced(values, limit) == values,
        values.len() > limit ==> reduced(values, limit).len() == limit,
        values.len() > limit ==> exists|at: int|
            0 <= at < values.len() && reduced(values, limit)[i] == #[trigger] values[at] && at * (
            limit - 1) <= i * (values.len() - 1) < (at + 1) * (limit - 1),
{
    if values.len() > limit {
        lemma_spread(i, values.len() as int, limit as int);
        let at = spread(i, values.len() as int, limit as int);
        let product = i * (values.len() - 1);
        let gaps = limit - 1;
        assert(at * gaps <= product < (at + 1) * gaps) by (nonlinear_arith)
            requires
                at == product / gaps,
                gaps > 0,
        ;
        assert(reduced(values, limit)[i] == values[at]);
    }
}

/// The bounds of a histogram are the least and the greatest of its values.
pub proof fn law_bounds_hold_all_values(values: Seq<u64>)
    requires
        values.len() > 0,
    ensures
        values.contains(least(values)),
        values.contains(greatest(values)),
        forall|i: int|
            0 <= i < values.len() ==> float_units(least(values)) <= float_units(
                #[trigger] values[i],
            ) <= float_units(greatest(values)),
    decreases values.len(),
{
    if values.len() == 1 {
        assert(values[0] == least(values));
    } else {
        let fewer = values.drop_last();
        let last = values.last();
        law_bounds_hold_all_values(fewer);
        let low = choose|i: int| 0 <= i < fewer.len() && fewer[i] == least(fewer);
        let high = choose|i: int| 0 <= i < fewer.len() && fewer[i] == greatest(fewer);
        assert(values[low] == least(fewer));
        assert(values[high] == greatest(fewer));
        assert(values[values.len() - 1] == last);
        law_float_key_orders_numbers(last, least(fewer));
        law_float_key_orders_numbers(least(fewer), last);
        law_float_key_orders_numbers(last, greatest(fewer));
        law_float_key_orders_numbers(greatest(fewer), last);
        assert forall|i: int| 0 <= i < values.len() implies float_units(least(values))
            <= float_units(#[trigger] values[i]) <= float_units(greatest(values)) by {
            if i < fewer.len() {
                assert(fewer[i] == values[i]);
            }
        }
    }
}

/// Numbers count as equal exactly where they are, the two zeros among them.
pub proof fn law_same_numbers_are_equal(a: u64, b: u64)
    requires
        is_number_bits(a),
        is_number_bits(b),
    ensures
        same_number(a, b) <==> float_units(a) == float_units(b),
{
    lemma_number_bits(a);
    lemma_number_bits(b);
    law_float_key_orders_numbers(a, b);
    law_float_key_orders_numbers(b, a);
    lemma_zero_units(a);
    lemma_zero_units(b);
}

/// The values that the bins count, added up.
pub open spec fn counted(bins: Seq<HistogramBin>) -> nat
    decreases bins.len(),
{
    if bins.len() == 0 {
        0
    } else {
        counted(bins.drop_last()) + bins.last().count as nat
    }
}

proof fn lemma_counted(bins: Seq<HistogramBin>, positions: Seq<usize>, all: usize)
    requires
        bins.len() <= all,
        forall|b: int|
            0 <= b < bins.len() ==> (#[trigger] bins[b]).count == tally(positions, all, b),
    ensures
        counted(bins) == tally_total(positions, all, bins.len()),
    decreases bins.len(),
{
    if bins.len() > 0 {
        let fewer = bins.drop_last();
        assert forall|b: int| 0 <= b < fewer.len() implies (#[trigger] fewer[b]).count == tally(
            positions,
            all,
            b,
        ) by {
            assert(fewer[b] == bins[b]);
        }
        lemma_counted(fewer, positions, all);
        assert(bins[bins.len() - 1].count == tally(positions, all, bins.len() - 1));
    }
}

/// A histogram counts each of its values once, in as many bins as asked for, or in one where
/// all are equal.
pub proof fn law_histogram_counts_its_values<L, E>(
    values: Seq<u64>,
    bins: usize,
    locate: L,
    edge: E,
    out: Seq<HistogramBin>,
) where L: Fn(u64, u64, u64, usize) -> usize, E: Fn(u64, u64, usize, usize) -> u64
    requires
        bins > 0,
        values.len() <= usize::MAX,
        histogram_of(values, bins, locate, edge, out),
    ensures
        counted(out) == values.len(),
        out.len() == if values.len() == 0 {
            0
        } else if same_number(least(values), greatest(values)) {
            1
        } else {
            bins as nat
        },
{
    if values.len() == 0 {
        assert(counted(out) == 0);
    } else {
        let min = least(values);
        let max = greatest(values);
        if same_number(min, max) {
            assert(out.drop_last() =~= Seq::<HistogramBin>::empty());
            assert(counted(out.drop_last()) == 0);
        } else {
            let positions = choose|positions: Seq<usize>| #[trigger]
                spread_over(values, min, max, bins, locate, edge, out, positions);
            lemma_counted(out, positions, bins);
            law_histogram_counts_every_value(positions, bins);
        }
    }
}

/// A chart is accepted with a column to chart, a second one unless it is a histogram, 2 to
/// 16384 points and 1 to 100 bins, and with nothing else.
pub proof fn law_chart_settings_are_bounded(config: ChartConfig)
    ensures
        config_fault(config) is None <==> {
            &&& trimmed(config.x_column@).len() > 0
            &&& config.kind is Histogram || trimmed(config.y_column@).len() > 0
            &&& 2 <= config.point_limit <= 16384
            &&& 1 <= config.bins <= 100
        },
{
}

/// The columns that are charted are those of the names that were chosen, and hold numbers,
/// dates or times; bars may also be labelled with texts.
pub proof fn law_charted_columns_are_those_named(
    config: ChartConfig,
    fields: Seq<Field>,
    x: int,
    y: Option<int>,
)
    requires
        charted_columns(config, fields) == Ok::<(int, Option<int>), ChartErrorModel>((x, y)),
    ensures
        0 <= x < fields.len(),
        fields[x].name@ == trimmed(config.x_column@),
        y is None <==> config.kind is Histogram,
        y matches Some(other) ==> 0 <= other < fields.len() && fields[other].name@ == trimmed(
            config.y_column@,
        ) && charts_as_number(fields[other].data_type),
        charts_as_number(fields[x].data_type) || (config.kind is Bar && fields[x].data_type is Utf8),
{
    crate::seqs::lemma_first_index(field_names(fields), trimmed(config.x_column@));
    crate::seqs::lemma_first_index(field_names(fields), trimmed(config.y_column@));
}

/// A chart draws what was collected, in its order: all of it where it is no more than may be
/// drawn, and then it says that nothing was left out; else as many values as may be drawn.
pub proof fn law_chart_draws_what_was_collected<L, E>(
    model: ChartModel,
    settings: ChartConfig,
    state: ChartState,
    locate: L,
    edge: E,
    i: int,
) where L: Fn(u64, u64, u64, usize) -> usize, E: Fn(u64, u64, usize, usize) -> u64
    requires
        chart_of(model, settings, state, locate, edge),
        settings.kind != ChartKind::Histogram,
        0 <= i < state.values.len(),
    ensures
        model.input_rows == state.values.len(),
        model.skipped_rows == state.skipped_rows,
        state.values.len() <= settings.point_limit ==> {
            &&& !model.reduced
            &&& model.output_count() == state.values.len()
            &&& state.values[i] matches RawModel::Point(point) ==> (
            model.values matches ChartValues::Points(points) ==> points@[i] == point)
            &&& state.values[i] matches RawModel::Bar(label, value) ==> (
            model.values matches ChartValues::Bars(bars) ==> bars@[i].label@ == label
                && bars@[i].value == value)
        },
        state.values.len() > settings.point_limit ==> model.reduced && model.output_count()
            == settings.point_limit,
        model.values is Points <==> settings.kind != ChartKind::Bar,
        model.values is Bars <==> settings.kind == ChartKind::Bar,
{
    let limit = settings.point_limit as nat;
    match model.values {
        ChartValues::Points(points) => {
            let all = points_of(state.values);
            assert(all.len() == state.values.len());
            assert(points@ == reduced(all, limit));
            assert(all[i] == state.values[i]->Point_0);
        },
        ChartValues::Bars(bars) => {
            let all = bars_of(state.values);
            assert(all.len() == state.values.len());
            assert(bar_models(bars@) == reduced(all, limit));
            assert(bar_models(bars@).len() == bars@.len());
            assert(all[i] == (state.values[i]->Bar_0, state.values[i]->Bar_1));
            if state.values.len() <= limit {
                assert(bar_models(bars@)[i] == (bars@[i].label@, bars@[i].value));
            }
        },
        ChartValues::Histogram(_) => {},
    }
}

proof fn lemma_tally_places(positions: Seq<usize>, bins: usize, bin: usize)
    requires
        bin < bins,
    ensures
        bin < bins - 1 ==> tally(positions, bins, bin as int) == positions.filter(
            |position: usize| position == bin,
        ).len(),
        bin == bins - 1 ==> tally(positions, bins, bin as int) == positions.filter(
            |position: usize| position >= bin,
        ).len(),
    decreases positions.len(),
{
    reveal(Seq::filter);
    if positions.len() > 0 {
        lemma_tally_places(positions.drop_last(), bins, bin);
    }
}

/// A bin of a histogram counts the values that are placed in it, between the least and the
/// greatest value; the last bin also counts those that are placed behind it. Each bin goes
/// from its own edge to that of the next one.
pub proof fn law_bin_counts_the_values_placed_in_it<L, E>(
    values: Seq<u64>,
    bins: usize,
    locate: L,
    edge: E,
    out: Seq<HistogramBin>,
    bin: usize,
) -> (positions: Seq<usize>) where
    L: Fn(u64, u64, u64, usize) -> usize,
    E: Fn(u64, u64, usize, usize) -> u64,

    requires
        values.len() > 0,
        !same_number(least(values), greatest(values)),
        histogram_of(values, bins, locate, edge, out),
        bin < bins,
    ensures
        positions.len() == values.len(),
        forall|i: int|
            0 <= i < values.len() ==> locate.ensures(
                (values[i], least(values), greatest(values), bins),
                #[trigger] positions[i],
            ),
        bin < bins - 1 ==> out[bin as int].count == positions.filter(
            |position: usize| position == bin,
        ).len(),
        bin == bins - 1 ==> out[bin as int].count == positions.filter(
            |position: usize| position >= bin,
        ).len(),
        edge.ensures((least(values), greatest(values), bins, bin), out[bin as int].start),
        edge.ensures(
            (least(values), greatest(values), bins, (bin + 1) as usize),
            out[bin as int].end,
        ),
{
    let min = least(values);
    let max = greatest(values);
    let positions = choose|positions: Seq<usize>| #[trigger]
        spread_over(values, min, max, bins, locate, edge, out, positions);
    assert(out[bin as int].count == tally(positions, bins, bin as int));
    lemma_tally_places(positions, bins, bin);
    positions
}

} // verus!
