//! Profiling one column: how many values are missing and how many differ, the
//! least and the greatest, the most frequent ones, and how they are distributed.
//! Floating-point numbers are held by their bits.

use crate::chart::{
    chart_of, collected, finite, law_finite_values_are_numbers, lemma_skipped_grows, stops_early,
    ChartAccumulator, ChartConfig, ChartError, ChartInput, ChartKind, ChartModel, ChartState, RawModel,
    MAX_INPUT_ROWS,
};
use crate::page::smaller;
use crate::runtime::GenerationId;
use crate::scalar::{
    float_key, float_rank, float_units, is_number_bits, law_float_key_orders_numbers,
    lemma_zero_units,
};
use crate::schema::{DataType, Field};
use crate::text::{
    byte_len, cat3, chars_of, compare_text, lemma_text_before_irreflexive, lemma_text_before_total,
    lemma_text_before_transitive, text_before, utf8_len, Comparison,
};
use vstd::prelude::*;

verus! {

pub const MAX_DISTINCT_VALUES: usize = 4096;

pub const MAX_DISTINCT_BYTES: usize = 1048576;

pub const MAX_PROFILE_VALUE_BYTES: usize = 128;

/// How many of the most frequent values are listed.
pub const FREQUENT_VALUE_LIMIT: usize = 10;

#[derive(Debug, PartialEq, Eq)]
pub struct FrequentValue {
    pub value: String,
    pub count: u64,
}

#[derive(Clone, Copy, Debug, PartialEq, Eq, Structural)]
pub struct StringLengthStats {
    pub min: usize,
    pub max: usize,
    pub mean: u64,
}

#[derive(Debug)]
pub struct ColumnProfile {
    pub column: usize,
    pub name: String,
    pub data_type: DataType,
    pub row_count: u64,
    pub null_count: u64,
    pub metadata_null_count: Option<u64>,
    pub distinct_count: usize,
    pub min: Option<String>,
    pub max: Option<String>,
    pub mean: Option<u64>,
    pub string_lengths: Option<StringLengthStats>,
    pub frequent_values: Vec<FrequentValue>,
    pub distribution: Option<ChartModel>,
    pub distribution_sampled: bool,
    pub non_finite_count: u64,
}

/// How profiling has ended.
#[derive(Debug)]
pub enum ProfileEvent {
    Finished { generation: GenerationId, profile: Box<ColumnProfile> },
    Cancelled { generation: GenerationId },
    Failed { generation: GenerationId, error: String },
}

/// Why a column cannot be profiled.
#[derive(Debug)]
pub enum ProfileError {
    Unsupported,
    TypeChanged,
    ValueTooLong,
    TooManyValues,
    TooManyBytes,
    MeanOverflow,
    Chart(ChartError),
}

/// One value of the column.
#[derive(Debug)]
pub enum ProfileValue {
    Null,
    /// A number and its text.
    Number { bits: u64, text: String },
    Text(String),
}

/// One value of the column, as a mathematical value.
pub enum ProfileInput {
    Null,
    Number { bits: u64, text: Seq<char> },
    Text(Seq<char>),
}

/// What was found of the values so far. The values that occurred stand in order,
/// each with the number of times.
pub struct ProfileState {
    pub row_count: u64,
    pub null_count: u64,
    pub distinct: Seq<(Seq<char>, u64)>,
    pub distinct_bytes: nat,
    pub min: Option<Seq<char>>,
    pub max: Option<Seq<char>>,
    pub numeric_min: Option<u64>,
    pub numeric_max: Option<u64>,
    pub numeric_sum: u64,
    pub numeric_count: u64,
    pub non_finite_count: u64,
    pub length_min: Option<usize>,
    pub length_max: usize,
    pub length_sum: u64,
}

/// Why a value is not taken, as a mathematical value.
pub enum ProfileFault {
    ValueTooLong,
    TooManyValues,
    TooManyBytes,
    MeanOverflow,
}

#[derive(Debug)]
struct Tally {
    value: String,
    count: u64,
}

/// Profiles one column, value by value.
#[derive(Debug)]
pub struct ProfileAccumulator {
    column: usize,
    name: String,
    data_type: DataType,
    metadata_null_count: Option<u64>,
    row_count: u64,
    null_count: u64,
    distinct: Vec<Tally>,
    distinct_bytes: usize,
    min: Option<String>,
    max: Option<String>,
    numeric_min: Option<u64>,
    numeric_max: Option<u64>,
    numeric_sum: u64,
    numeric_count: u64,
    non_finite_count: u64,
    string_length_min: Option<usize>,
    string_length_max: usize,
    string_length_sum: u64,
    chart: Option<ChartAccumulator>,
    distribution_sampled: bool,
}

// ---------------------------------------------------------------------------
// What one value changes
// ---------------------------------------------------------------------------

/// `n + 1`, or the greatest number there is.
pub open spec fn one_more(n: u64) -> u64 {
    smaller(n + 1, u64::MAX as int) as u64
}

/// Whether a number is smaller than another one. The two zeros are equal.
pub open spec fn number_below(a: u64, b: u64) -> bool {
    float_key(a) < float_key(b) && !(a % 0x8000_0000_0000_0000 == 0 && b % 0x8000_0000_0000_0000
        == 0)
}

/// Whether the values stand in order, each once.
pub open spec fn in_order(entries: Seq<(Seq<char>, u64)>) -> bool {
    forall|i: int, j: int|
        0 <= i < j < entries.len() ==> text_before(
            (#[trigger] entries[i]).0,
            (#[trigger] entries[j]).0,
        )
}

/// Where a value stands among the entries, or would stand.
pub open spec fn place_of(entries: Seq<(Seq<char>, u64)>, value: Seq<char>) -> int
    decreases entries.len(),
{
    if entries.len() == 0 {
        0
    } else if text_before(entries.last().0, value) {
        entries.len() as int
    } else {
        place_of(entries.drop_last(), value)
    }
}

/// Whether a value occurred.
pub open spec fn occurred(entries: Seq<(Seq<char>, u64)>, value: Seq<char>) -> bool {
    exists|i: int| 0 <= i < entries.len() && (#[trigger] entries[i]).0 == value
}

/// The values that occurred once another one has, and how many bytes they have;
/// or why no exact count can be kept.
pub open spec fn distinct_recorded(
    entries: Seq<(Seq<char>, u64)>,
    bytes: nat,
    value: Seq<char>,
) -> Result<(Seq<(Seq<char>, u64)>, nat), ProfileFault> {
    let place = place_of(entries, value);
    if byte_len(value) > MAX_PROFILE_VALUE_BYTES {
        Err(ProfileFault::ValueTooLong)
    } else if occurred(entries, value) {
        Ok((entries.update(place, (value, one_more(entries[place].1))), bytes))
    } else if entries.len() == MAX_DISTINCT_VALUES {
        Err(ProfileFault::TooManyValues)
    } else if bytes + byte_len(value) > MAX_DISTINCT_BYTES {
        Err(ProfileFault::TooManyBytes)
    } else {
        Ok((entries.insert(place, (value, 1)), bytes + byte_len(value)))
    }
}

/// What is known once a number was met. `sum` is the sum with it.
pub open spec fn number_recorded(
    state: ProfileState,
    bits: u64,
    text: Seq<char>,
    sum: u64,
) -> Result<ProfileState, ProfileFault> {
    if !finite(bits) {
        Ok(ProfileState { non_finite_count: one_more(state.non_finite_count), ..state })
    } else {
        let lower = state.numeric_min is None || number_below(bits, state.numeric_min->0);
        let higher = state.numeric_max is None || number_below(state.numeric_max->0, bits);
        if !finite(sum) {
            Err(ProfileFault::MeanOverflow)
        } else {
            Ok(
                ProfileState {
                    numeric_min: if lower {
                        Some(bits)
                    } else {
                        state.numeric_min
                    },
                    min: if lower {
                        Some(text)
                    } else {
                        state.min
                    },
                    numeric_max: if higher {
                        Some(bits)
                    } else {
                        state.numeric_max
                    },
                    max: if higher {
                        Some(text)
                    } else {
                        state.max
                    },
                    numeric_sum: sum,
                    numeric_count: one_more(state.numeric_count),
                    ..state
                },
            )
        }
    }
}

/// What is known once a text was met.
pub open spec fn text_recorded(state: ProfileState, text: Seq<char>) -> ProfileState {
    let length = text.len();
    ProfileState {
        min: if state.min is None || text_before(text, state.min->0) {
            Some(text)
        } else {
            state.min
        },
        max: if state.max is None || text_before(state.max->0, text) {
            Some(text)
        } else {
            state.max
        },
        length_min: Some(
            match state.length_min {
                Some(least) => if least < length {
                    least
                } else {
                    length as usize
                },
                None => length as usize,
            },
        ),
        length_max: if state.length_max > length {
            state.length_max
        } else {
            length as usize
        },
        length_sum: smaller(state.length_sum + length, u64::MAX as int) as u64,
        ..state
    }
}

/// What is known once a value was met. `sum` is the sum of the numbers with it.
pub open spec fn value_recorded(state: ProfileState, value: ProfileInput, sum: u64) -> Result<
    ProfileState,
    ProfileFault,
> {
    let counted = ProfileState { row_count: one_more(state.row_count), ..state };
    match value {
        ProfileInput::Null => Ok(
            ProfileState { null_count: one_more(state.null_count), ..counted },
        ),
        ProfileInput::Number { bits, text } => match distinct_recorded(
            state.distinct,
            state.distinct_bytes,
            text,
        ) {
            Err(fault) => Err(fault),
            Ok((distinct, distinct_bytes)) => number_recorded(
                ProfileState { distinct, distinct_bytes, ..counted },
                bits,
                text,
                sum,
            ),
        },
        ProfileInput::Text(text) => match distinct_recorded(
            state.distinct,
            state.distinct_bytes,
            text,
        ) {
            Err(fault) => Err(fault),
            Ok((distinct, distinct_bytes)) => Ok(
                text_recorded(ProfileState { distinct, distinct_bytes, ..counted }, text),
            ),
        },
    }
}

/// What is known once the first `count` values were met, with these sums; or why
/// one was not taken.
pub open spec fn values_recorded(
    state: ProfileState,
    values: Seq<ProfileInput>,
    sums: Seq<u64>,
    count: nat,
) -> Result<ProfileState, ProfileFault>
    decreases count,
{
    if count == 0 {
        Ok(state)
    } else {
        match values_recorded(state, values, sums, (count - 1) as nat) {
            Err(fault) => Err(fault),
            Ok(before) => value_recorded(before, values[count - 1], sums[count - 1]),
        }
    }
}

/// What is known before any value was met.
pub open spec fn profile_start() -> ProfileState {
    ProfileState {
        row_count: 0,
        null_count: 0,
        distinct: Seq::empty(),
        distinct_bytes: 0,
        min: None,
        max: None,
        numeric_min: None,
        numeric_max: None,
        numeric_sum: 0,
        numeric_count: 0,
        non_finite_count: 0,
        length_min: None,
        length_max: 0,
        length_sum: 0,
    }
}

/// The types that can be profiled.
pub open spec fn profiled_type(data_type: DataType) -> bool {
    data_type.numeric() || data_type == DataType::Utf8 || data_type == DataType::LargeUtf8
}

// ---------------------------------------------------------------------------
// The most frequent values
// ---------------------------------------------------------------------------

/// Whether a value is listed before another one: it is more frequent, or as
/// frequent and before it in the order of texts.
pub open spec fn listed_before(a: (Seq<char>, u64), b: (Seq<char>, u64)) -> bool {
    a.1 > b.1 || (a.1 == b.1 && text_before(a.0, b.0))
}

/// Whether these are the first `limit` of the entries in the order of the list.
pub open spec fn most_frequent(
    listed: Seq<(Seq<char>, u64)>,
    entries: Seq<(Seq<char>, u64)>,
    limit: nat,
) -> bool {
    &&& listed.len() == if entries.len() < limit {
        entries.len()
    } else {
        limit
    }
    &&& forall|i: int| 0 <= i < listed.len() ==> entries.contains(#[trigger] listed[i])
    &&& forall|i: int, j: int|
        0 <= i < j < listed.len() ==> listed_before(#[trigger] listed[i], #[trigger] listed[j])
    &&& forall|k: int, i: int|
        0 <= k < entries.len() && 0 <= i < listed.len() && !listed.contains(
            #[trigger] entries[k],
        ) ==> listed_before(#[trigger] listed[i], entries[k])
}

impl View for ProfileValue {
    type V = ProfileInput;

    open spec fn view(&self) -> ProfileInput {
        match self {
            ProfileValue::Null => ProfileInput::Null,
            ProfileValue::Number { bits, text } => ProfileInput::Number {
                bits: *bits,
                text: text@,
            },
            ProfileValue::Text(text) => ProfileInput::Text(text@),
        }
    }
}

/// What the values say.
pub open spec fn inputs(values: Seq<ProfileValue>) -> Seq<ProfileInput> {
    values.map_values(|value: ProfileValue| value@)
}

/// What the most frequent values say.
pub open spec fn frequent_models(values: Seq<FrequentValue>) -> Seq<(Seq<char>, u64)> {
    values.map_values(|value: FrequentValue| (value.value@, value.count))
}

spec fn tally_models(tallies: Seq<Tally>) -> Seq<(Seq<char>, u64)> {
    tallies.map_values(|tally: Tally| (tally.value@, tally.count))
}

spec fn text_option(text: Option<String>) -> Option<Seq<char>> {
    match text {
        Some(text) => Some(text@),
        None => None,
    }
}

impl View for ProfileAccumulator {
    type V = ProfileState;

    closed spec fn view(&self) -> ProfileState {
        ProfileState {
            row_count: self.row_count,
            null_count: self.null_count,
            distinct: tally_models(self.distinct@),
            distinct_bytes: self.distinct_bytes as nat,
            min: text_option(self.min),
            max: text_option(self.max),
            numeric_min: self.numeric_min,
            numeric_max: self.numeric_max,
            numeric_sum: self.numeric_sum,
            numeric_count: self.numeric_count,
            non_finite_count: self.non_finite_count,
            length_min: self.string_length_min,
            length_max: self.string_length_max,
            length_sum: self.string_length_sum,
        }
    }
}

impl ColumnProfile {
    /// How many values are not missing.
    pub fn non_null_count(&self) -> (count: u64)
        ensures
            count == (if self.row_count >= self.null_count {
                self.row_count - self.null_count
            } else {
                0
            }),
    {
        self.row_count.saturating_sub(self.null_count)
    }
}

impl ProfileError {
    /// The message that the user sees, given the name of the type of the column.
    pub open spec fn message_text(self, type_text: Seq<char>) -> Seq<char> {
        match self {
            ProfileError::Unsupported => "profiling does not support "@ + type_text
                + "; use Inspector metadata instead"@,
            ProfileError::TypeChanged => "profile batch type changed"@,
            ProfileError::ValueTooLong => {
                "distinct values longer than 128 bytes are not retained exactly"@
            },
            ProfileError::TooManyValues => {
                "exact distinct count exceeds the 4096-value profile limit"@
            },
            ProfileError::TooManyBytes => {
                "exact distinct values exceed the 1048576-byte profile limit"@
            },
            ProfileError::MeanOverflow => "numeric mean overflowed while profiling"@,
            ProfileError::Chart(error) => error.message_text(),
        }
    }

    /// The message that the user sees, given the name of the type of the column.
    pub fn message(&self, type_text: &str) -> (text: String)
        ensures
            text@ == self.message_text(type_text@),
    {
        match self {
            ProfileError::Unsupported => cat3(
                "profiling does not support ",
                type_text,
                "; use Inspector metadata instead",
            ),
            ProfileError::TypeChanged => "profile batch type changed".to_owned(),
            ProfileError::ValueTooLong => {
                "distinct values longer than 128 bytes are not retained exactly".to_owned()
            },
            ProfileError::TooManyValues => {
                "exact distinct count exceeds the 4096-value profile limit".to_owned()
            },
            ProfileError::TooManyBytes => {
                "exact distinct values exceed the 1048576-byte profile limit".to_owned()
            },
            ProfileError::MeanOverflow => "numeric mean overflowed while profiling".to_owned(),
            ProfileError::Chart(error) => error.message(),
        }
    }

    /// Whether the error says what the fault is.
    pub open spec fn reports(self, fault: ProfileFault) -> bool {
        match fault {
            ProfileFault::ValueTooLong => self is ValueTooLong,
            ProfileFault::TooManyValues => self is TooManyValues,
            ProfileFault::TooManyBytes => self is TooManyBytes,
            ProfileFault::MeanOverflow => self is MeanOverflow,
        }
    }
}

/// What profiling that has come to an end reports. Whatever it came to, one that
/// was cancelled reports that.
pub fn profile_event(
    result: Result<ColumnProfile, String>,
    cancelled: bool,
    generation: GenerationId,
) -> (event: ProfileEvent)
    ensures
        event == (if cancelled {
            ProfileEvent::Cancelled { generation }
        } else {
            match result {
                Ok(profile) => ProfileEvent::Finished { generation, profile: Box::new(profile) },
                Err(error) => ProfileEvent::Failed { generation, error },
            }
        }),
{
    if cancelled {
        return ProfileEvent::Cancelled { generation };
    }
    match result {
        Ok(profile) => ProfileEvent::Finished { generation, profile: Box::new(profile) },
        Err(error) => ProfileEvent::Failed { generation, error },
    }
}

// ---------------------------------------------------------------------------
// Facts on ordered entries
// ---------------------------------------------------------------------------

proof fn lemma_place(entries: Seq<(Seq<char>, u64)>, value: Seq<char>, k: int)
    requires
        in_order(entries),
        0 <= k <= entries.len(),
        forall|i: int| 0 <= i < k ==> text_before((#[trigger] entries[i]).0, value),
        k < entries.len() ==> !text_before(entries[k].0, value),
    ensures
        place_of(entries, value) == k,
        occurred(entries, value) <==> k < entries.len() && entries[k].0 == value,
    decreases entries.len(),
{
    if entries.len() > 0 {
        let init = entries.drop_last();
        if k == entries.len() {
            assert(text_before(entries[k - 1].0, value));
            assert forall|i: int| 0 <= i < entries.len() implies (#[trigger] entries[i]).0 != value by {
                lemma_text_before_irreflexive(value);
            }
        } else {
            assert forall|i: int| k < i < entries.len() implies !text_before(
                (#[trigger] entries[i]).0,
                value,
            ) && entries[i].0 != value by {
                assert(text_before(entries[k].0, entries[i].0));
                if text_before(entries[i].0, value) {
                    lemma_text_before_transitive(entries[k].0, entries[i].0, value);
                }
            }
            assert(!text_before(entries[entries.len() - 1].0, value));
            assert(in_order(init)) by {
                assert forall|i: int, j: int| 0 <= i < j < init.len() implies text_before(
                    (#[trigger] init[i]).0,
                    (#[trigger] init[j]).0,
                ) by {
                    assert(text_before(entries[i].0, entries[j].0));
                }
            }
            assert forall|i: int| 0 <= i < k implies text_before((#[trigger] init[i]).0, value) by {
                assert(text_before(entries[i].0, value));
            }
            lemma_place(init, value, k);
            assert forall|i: int| 0 <= i < k implies (#[trigger] entries[i]).0 != value by {
                lemma_text_before_irreflexive(value);
            }
            if occurred(entries, value) {
                let i = choose|i: int| 0 <= i < entries.len() && (#[trigger] entries[i]).0 == value;
                assert(i == k);
            }
        }
    }
}

/// Recording a value keeps the entries in order.
proof fn lemma_recorded_in_order(
    entries: Seq<(Seq<char>, u64)>,
    value: Seq<char>,
    k: int,
    entry: (Seq<char>, u64),
)
    requires
        in_order(entries),
        0 <= k <= entries.len(),
        forall|i: int| 0 <= i < k ==> text_before((#[trigger] entries[i]).0, value),
        k < entries.len() ==> !text_before(entries[k].0, value),
        entry.0 == value,
    ensures
        k < entries.len() && entries[k].0 == value ==> in_order(entries.update(k, entry)),
        !(k < entries.len() && entries[k].0 == value) ==> in_order(entries.insert(k, entry)),
{
    if k < entries.len() && entries[k].0 == value {
        let after = entries.update(k, entry);
        assert forall|i: int, j: int| 0 <= i < j < after.len() implies text_before(
            (#[trigger] after[i]).0,
            (#[trigger] after[j]).0,
        ) by {
            assert(text_before(entries[i].0, entries[j].0));
        }
    } else {
        let after = entries.insert(k, entry);
        if k < entries.len() {
            lemma_text_before_total(entries[k].0, value);
        }
        assert forall|i: int, j: int| 0 <= i < j < after.len() implies text_before(
            (#[trigger] after[i]).0,
            (#[trigger] after[j]).0,
        ) by {
            let a = if i <= k {
                i
            } else {
                i - 1
            };
            let b = if j <= k {
                j
            } else {
                j - 1
            };
            if i != k && j != k {
                assert(text_before(entries[a].0, entries[b].0));
            } else if i == k {
                if b > k {
                    assert(text_before(entries[k].0, entries[b].0));
                    lemma_text_before_transitive(value, entries[k].0, entries[b].0);
                }
            }
        }
    }
}

impl ProfileAccumulator {
    /// The column that is profiled, its name, its type and the number of missing
    /// values that the file records.
    pub closed spec fn subject(&self) -> (usize, Seq<char>, DataType, Option<u64>) {
        (self.column, self.name@, self.data_type, self.metadata_null_count)
    }

    /// The values whose distribution is shown, where the column has numbers.
    pub closed spec fn sample(&self) -> Option<ChartAccumulator> {
        self.chart
    }

    /// Whether the distribution is that of the first values only.
    pub closed spec fn sampled(&self) -> bool {
        self.distribution_sampled
    }

    /// The values that occurred stand in order, and no more of them are held than
    /// may be.
    pub open spec fn entries_sound(&self) -> bool {
        &&& in_order(self@.distinct)
        &&& self@.distinct.len() <= MAX_DISTINCT_VALUES
        &&& self@.distinct_bytes <= MAX_DISTINCT_BYTES
    }

    /// The values that occurred are soundly held, and the distribution is that of a
    /// sound chart of the values that were met.
    pub open spec fn wf(&self) -> bool {
        &&& self.entries_sound()
        &&& self.charts_numbers_only()
        &&& self.sample() matches Some(chart) ==> chart.wf() && chart.settings().kind
            == ChartKind::Histogram && chart@.skipped_rows <= self@.row_count
    }

    /// Only what was found differs.
    pub open spec fn continues(&self, before: &Self) -> bool {
        self.subject() == before.subject()
    }

    /// Nothing is found yet.
    pub fn new(
        column: usize,
        name: String,
        data_type: DataType,
        metadata_null_count: Option<u64>,
    ) -> (result: Result<Self, ProfileError>)
        ensures
            match result {
                Ok(accumulator) => profiled_type(data_type) && accumulator.wf()
                    && accumulator.subject() == (column, name@, data_type, metadata_null_count)
                    && accumulator@ == profile_start() && !accumulator.sampled() && (
                accumulator.sample() is Some <==> data_type.numeric()) && (
                accumulator.sample() matches Some(chart) ==> chart.settings().x_column@ == name@
                    && chart.settings().bins == 20 && chart.settings().point_limit
                    == MAX_INPUT_ROWS && chart@ == (ChartState {
                    values: Seq::empty(),
                    skipped_rows: 0,
                    input_capped: false,
                })),
                Err(ProfileError::Unsupported) => !profiled_type(data_type),
                Err(ProfileError::Chart(error)) => data_type.numeric() && error is NoX
                    && crate::text::trimmed(name@).len() == 0,
                Err(_) => false,
            },
    {
        let numeric = data_type.supports_numeric();
        if !numeric && data_type != DataType::Utf8 && data_type != DataType::LargeUtf8 {
            return Err(ProfileError::Unsupported);
        }
        let chart = if numeric {
            let config = ChartConfig {
                kind: ChartKind::Histogram,
                x_column: name.as_str().to_owned(),
                y_column: String::new(),
                point_limit: MAX_INPUT_ROWS,
                bins: 20,
                title: String::new(),
            };
            match ChartAccumulator::new(config) {
                Ok(chart) => Some(chart),
                Err(error) => return Err(ProfileError::Chart(error)),
            }
        } else {
            None
        };
        let accumulator = ProfileAccumulator {
            column,
            name,
            data_type,
            metadata_null_count,
            row_count: 0,
            null_count: 0,
            distinct: Vec::new(),
            distinct_bytes: 0,
            min: None,
            max: None,
            numeric_min: None,
            numeric_max: None,
            numeric_sum: 0,
            numeric_count: 0,
            non_finite_count: 0,
            string_length_min: None,
            string_length_max: 0,
            string_length_sum: 0,
            chart,
            distribution_sampled: false,
        };
        assert(accumulator@.distinct =~= Seq::<(Seq<char>, u64)>::empty());
        Ok(accumulator)
    }

    /// How many values were met.
    pub fn rows(&self) -> (rows: u64)
        ensures
            rows == self@.row_count,
    {
        self.row_count
    }

    /// The sum of the numbers that were met.
    pub fn numeric_sum(&self) -> (sum: u64)
        ensures
            sum == self@.numeric_sum,
    {
        self.numeric_sum
    }

    /// Where a value stands among those that occurred, or would stand; and whether
    /// it occurred.
    fn find(&self, value: &str) -> (result: (usize, bool))
        requires
            in_order(self@.distinct),
        ensures
            result.0 == place_of(self@.distinct, value@),
            result.0 <= self@.distinct.len(),
            result.1 == occurred(self@.distinct, value@),
            result.1 ==> result.0 < self@.distinct.len() && self@.distinct[result.0 as int].0
                == value@,
            forall|i: int|
                0 <= i < result.0 ==> text_before((#[trigger] self@.distinct[i]).0, value@),
            result.0 < self@.distinct.len() ==> !text_before(
                self@.distinct[result.0 as int].0,
                value@,
            ),
    {
        let ghost entries = self@.distinct;
        let mut low: usize = 0;
        let mut high: usize = self.distinct.len();
        while low < high
            invariant
                entries == self@.distinct,
                entries.len() == self.distinct@.len(),
                in_order(entries),
                low <= high <= entries.len(),
                forall|i: int| 0 <= i < low ==> text_before((#[trigger] entries[i]).0, value@),
                high < entries.len() ==> !text_before(entries[high as int].0, value@),
            decreases high - low,
        {
            let middle: usize = low + (high - low) / 2;
            assert(entries[middle as int].0 == self.distinct@[middle as int].value@);
            match compare_text(self.distinct[middle].value.as_str(), value) {
                Comparison::Less => {
                    proof {
                        assert forall|i: int| 0 <= i < middle + 1 implies text_before(
                            (#[trigger] entries[i]).0,
                            value@,
                        ) by {
                            if i < middle {
                                assert(text_before(entries[i].0, entries[middle as int].0));
                                lemma_text_before_transitive(
                                    entries[i].0,
                                    entries[middle as int].0,
                                    value@,
                                );
                            }
                        }
                    }
                    low = middle + 1;
                },
                _ => {
                    high = middle;
                },
            }
        }
        proof {
            lemma_place(entries, value@, low as int);
        }
        let found = low < self.distinct.len() && crate::text::same_text(
            self.distinct[low].value.as_str(),
            value,
        );
        assert(low < entries.len() ==> entries[low as int].0 == self.distinct@[low as int].value@);
        (low, found)
    }

    /// Counts an occurrence of a value.
    pub fn record_distinct(&mut self, value: &str) -> (result: Result<(), ProfileError>)
        requires
            old(self).entries_sound(),
        ensures
            final(self).entries_sound(),
            old(self).wf() ==> final(self).wf(),
            final(self).continues(old(self)),
            final(self).sample() == old(self).sample(),
            final(self).sampled() == old(self).sampled(),
            match distinct_recorded(old(self)@.distinct, old(self)@.distinct_bytes, value@) {
                Ok((distinct, distinct_bytes)) => result is Ok && final(self)@ == (ProfileState {
                    distinct,
                    distinct_bytes,
                    ..old(self)@
                }),
                Err(fault) => result is Err && result->Err_0.reports(fault) && final(self)@ == old(
                    self,
                )@,
            },
    {
        let length: usize = utf8_len(value);
        if length > MAX_PROFILE_VALUE_BYTES {
            return Err(ProfileError::ValueTooLong);
        }
        let ghost before = self@.distinct;
        let (place, found) = self.find(value);
        if found {
            let count: u64 = self.distinct[place].count.saturating_add(1);
            proof {
                lemma_recorded_in_order(before, value@, place as int, (value@, count));
            }
            self.distinct[place].count = count;
            assert(self@.distinct =~= before.update(place as int, (value@, count)));
            return Ok(());
        }
        if self.distinct.len() == MAX_DISTINCT_VALUES {
            return Err(ProfileError::TooManyValues);
        }
        if self.distinct_bytes + length > MAX_DISTINCT_BYTES {
            return Err(ProfileError::TooManyBytes);
        }
        self.distinct_bytes = self.distinct_bytes + length;
        proof {
            lemma_recorded_in_order(before, value@, place as int, (value@, 1));
        }
        self.distinct.insert(place, Tally { value: value.to_owned(), count: 1 });
        assert(self@.distinct =~= before.insert(place as int, (value@, 1)));
        Ok(())
    }

    fn record_numeric(&mut self, bits: u64, text: &str, sum: u64) -> (result: Result<
        (),
        ProfileError,
    >)
        requires
            old(self).entries_sound(),
        ensures
            final(self).entries_sound(),
            old(self).wf() ==> final(self).wf(),
            final(self).continues(old(self)),
            final(self).sample() == old(self).sample(),
            final(self).sampled() == old(self).sampled(),
            final(self)@.row_count == old(self)@.row_count,
            match number_recorded(old(self)@, bits, text@, sum) {
                Ok(next) => result is Ok && final(self)@ == next,
                Err(fault) => result is Err && result->Err_0.reports(fault),
            },
    {
        if !finite_number(bits) {
            self.non_finite_count = self.non_finite_count.saturating_add(1);
            return Ok(());
        }
        let lower = match self.numeric_min {
            None => true,
            Some(least) => is_below(bits, least),
        };
        if lower {
            self.numeric_min = Some(bits);
            self.min = Some(text.to_owned());
        }
        let higher = match self.numeric_max {
            None => true,
            Some(greatest) => is_below(greatest, bits),
        };
        if higher {
            self.numeric_max = Some(bits);
            self.max = Some(text.to_owned());
        }
        if !finite_number(sum) {
            return Err(ProfileError::MeanOverflow);
        }
        self.numeric_sum = sum;
        self.numeric_count = self.numeric_count.saturating_add(1);
        Ok(())
    }

    fn record_text(&mut self, text: &str)
        requires
            old(self).entries_sound(),
        ensures
            final(self).entries_sound(),
            old(self).wf() ==> final(self).wf(),
            final(self).continues(old(self)),
            final(self).sample() == old(self).sample(),
            final(self).sampled() == old(self).sampled(),
            final(self)@ == text_recorded(old(self)@, text@),
    {
        let first = match &self.min {
            None => true,
            Some(least) => match compare_text(text, least.as_str()) {
                Comparison::Less => true,
                _ => false,
            },
        };
        if first {
            self.min = Some(text.to_owned());
        }
        let last = match &self.max {
            None => true,
            Some(greatest) => match compare_text(greatest.as_str(), text) {
                Comparison::Less => true,
                _ => false,
            },
        };
        if last {
            self.max = Some(text.to_owned());
        }
        let length: usize = chars_of(text).len();
        self.string_length_min = Some(
            match self.string_length_min {
                Some(least) => if least < length {
                    least
                } else {
                    length
                },
                None => length,
            },
        );
        if length > self.string_length_max {
            self.string_length_max = length;
        }
        self.string_length_sum = self.string_length_sum.saturating_add(length as u64);
    }

    /// Takes in one value. `sum` is the sum of the numbers with it.
    pub fn push_value(&mut self, value: &ProfileValue, sum: u64) -> (result: Result<
        (),
        ProfileError,
    >)
        requires
            old(self).entries_sound(),
        ensures
            final(self).entries_sound(),
            old(self).wf() ==> final(self).wf(),
            final(self).continues(old(self)),
            final(self).sample() == old(self).sample(),
            final(self).sampled() == old(self).sampled(),
            match value_recorded(old(self)@, value@, sum) {
                Ok(next) => result is Ok && final(self)@ == next,
                Err(fault) => result is Err && result->Err_0.reports(fault),
            },
    {
        self.row_count = self.row_count.saturating_add(1);
        match value {
            ProfileValue::Null => {
                self.null_count = self.null_count.saturating_add(1);
                Ok(())
            },
            ProfileValue::Number { bits, text } => {
                self.record_distinct(text.as_str())?;
                self.record_numeric(*bits, text.as_str(), sum)
            },
            ProfileValue::Text(text) => {
                self.record_distinct(text.as_str())?;
                self.record_text(text.as_str());
                Ok(())
            },
        }
    }
}

fn finite_number(bits: u64) -> (yes: bool)
    ensures
        yes == finite(bits),
{
    (bits / 0x10_0000_0000_0000) % 2048 != 2047
}

fn is_below(a: u64, b: u64) -> (yes: bool)
    ensures
        yes == number_below(a, b),
{
    float_rank(a) < float_rank(b) && !(a % 0x8000_0000_0000_0000 == 0 && b % 0x8000_0000_0000_0000
        == 0)
}

// ---------------------------------------------------------------------------
// Listing the most frequent values
// ---------------------------------------------------------------------------

proof fn lemma_listed_total(a: (Seq<char>, u64), b: (Seq<char>, u64))
    requires
        a.0 != b.0,
    ensures
        listed_before(a, b) != listed_before(b, a),
{
    lemma_text_before_total(a.0, b.0);
    if text_before(a.0, b.0) && text_before(b.0, a.0) {
        lemma_text_before_transitive(a.0, b.0, a.0);
        lemma_text_before_irreflexive(a.0);
    }
}

proof fn lemma_listed_transitive(
    a: (Seq<char>, u64),
    b: (Seq<char>, u64),
    c: (Seq<char>, u64),
)
    requires
        listed_before(a, b),
        listed_before(b, c),
    ensures
        listed_before(a, c),
{
    if a.1 == b.1 && b.1 == c.1 {
        lemma_text_before_transitive(a.0, b.0, c.0);
    }
}

/// Whether the entries are of different values.
spec fn differ(entries: Seq<(Seq<char>, u64)>) -> bool {
    forall|i: int, j: int|
        0 <= i < j < entries.len() ==> (#[trigger] entries[i]).0 != (#[trigger] entries[j]).0
}

/// The list once another entry has its place in it, and the last one has left
/// where there are too many.
spec fn placed(
    listed: Seq<(Seq<char>, u64)>,
    entry: (Seq<char>, u64),
    at: int,
    limit: nat,
) -> Seq<(Seq<char>, u64)> {
    let longer = listed.insert(at, entry);
    if longer.len() > limit {
        longer.drop_last()
    } else {
        longer
    }
}

proof fn lemma_placed(
    listed: Seq<(Seq<char>, u64)>,
    entries: Seq<(Seq<char>, u64)>,
    k: int,
    at: int,
    limit: nat,
)
    requires
        0 < limit,
        differ(entries),
        0 <= k < entries.len(),
        most_frequent(listed, entries.take(k), limit),
        0 <= at <= listed.len(),
        forall|i: int| 0 <= i < at ==> listed_before(#[trigger] listed[i], entries[k]),
        forall|i: int| at <= i < listed.len() ==> listed_before(entries[k], #[trigger] listed[i]),
    ensures
        most_frequent(placed(listed, entries[k], at, limit), entries.take(k + 1), limit),
{
    let entry = entries[k];
    let before = entries.take(k);
    let now = entries.take(k + 1);
    let longer = listed.insert(at, entry);
    let after = placed(listed, entry, at, limit);
    assert(now =~= before.push(entry));
    // Where each entry of the longer list comes from.
    assert forall|i: int| 0 <= i < longer.len() implies now.contains(#[trigger] longer[i]) by {
        if i == at {
            assert(now[k] == longer[i]);
        } else {
            let from = if i < at {
                i
            } else {
                i - 1
            };
            assert(longer[i] == listed[from]);
            let j = choose|j: int| 0 <= j < before.len() && before[j] == listed[from];
            assert(now[j] == longer[i]);
        }
    }
    assert forall|i: int, j: int| 0 <= i < j < longer.len() implies listed_before(
        #[trigger] longer[i],
        #[trigger] longer[j],
    ) by {
        let a = if i < at {
            i
        } else {
            i - 1
        };
        let b = if j < at {
            j
        } else {
            j - 1
        };
        if i == at {
            assert(longer[j] == listed[b]);
        } else if j == at {
            assert(longer[i] == listed[a]);
        } else {
            assert(longer[i] == listed[a]);
            assert(longer[j] == listed[b]);
        }
    }
    assert forall|i: int| 0 <= i < after.len() implies now.contains(#[trigger] after[i]) by {
        assert(after[i] == longer[i]);
    }
    assert forall|i: int, j: int| 0 <= i < j < after.len() implies listed_before(
        #[trigger] after[i],
        #[trigger] after[j],
    ) by {
        assert(after[i] == longer[i]);
        assert(after[j] == longer[j]);
    }
    assert forall|n: int, i: int|
        0 <= n < now.len() && 0 <= i < after.len() && !after.contains(#[trigger] now[n]) implies listed_before(
    #[trigger] after[i], now[n]) by {
        let x = now[n];
        assert(after[i] == longer[i]);
        if longer.contains(x) {
            let j = choose|j: int| 0 <= j < longer.len() && longer[j] == x;
            if j < after.len() {
                assert(after[j] == x);
                assert(false);
            }
            assert(listed_before(longer[i], longer[j]));
        } else {
            // The entry is an earlier one that is not listed.
            assert(longer[at] == entry);
            assert(n < k);
            assert(before[n] == x);
            if listed.contains(x) {
                let j = choose|j: int| 0 <= j < listed.len() && listed[j] == x;
                let to = if j < at {
                    j
                } else {
                    j + 1
                };
                assert(longer[to] == x);
                assert(false);
            }
            assert(listed.len() == limit) by {
                if listed.len() < limit {
                    lemma_all_listed(listed, before, n);
                    assert(false);
                }
            }
            if i == at {
                assert(at < listed.len());
                assert(listed_before(entry, listed[at]));
                assert(listed_before(listed[at], before[n]));
                lemma_listed_transitive(entry, listed[at], x);
            } else {
                let from = if i < at {
                    i
                } else {
                    i - 1
                };
                assert(longer[i] == listed[from]);
                assert(listed_before(listed[from], before[n]));
            }
        }
    }
}

/// A list that is as long as the entries are, without repetition, holds them all.
proof fn lemma_all_listed(
    listed: Seq<(Seq<char>, u64)>,
    entries: Seq<(Seq<char>, u64)>,
    n: int,
)
    requires
        listed.len() == entries.len(),
        0 <= n < entries.len(),
        forall|i: int| 0 <= i < listed.len() ==> entries.contains(#[trigger] listed[i]),
        forall|i: int, j: int|
            0 <= i < j < listed.len() ==> listed_before(#[trigger] listed[i], #[trigger] listed[j]),
    ensures
        listed.contains(entries[n]),
{
    assert(listed.no_duplicates()) by {
        assert forall|i: int, j: int|
            0 <= i < listed.len() && 0 <= j < listed.len() && i != j implies listed[i]
            != listed[j] by {
            lemma_text_before_irreflexive(listed[i].0);
            if i < j {
                assert(listed_before(listed[i], listed[j]));
            } else {
                assert(listed_before(listed[j], listed[i]));
            }
        }
    }
    listed.unique_seq_to_set();
    entries.lemma_cardinality_of_set();
    assert(listed.to_set().subset_of(entries.to_set()));
    vstd::set_lib::lemma_len_subset(listed.to_set(), entries.to_set());
    vstd::set_lib::lemma_subset_equality(listed.to_set(), entries.to_set());
    assert(entries.to_set().contains(entries[n]));
    assert(listed.to_set().contains(entries[n]));
}

fn ranks_before(count: u64, value: &str, other: &FrequentValue) -> (yes: bool)
    ensures
        yes == listed_before((value@, count), (other.value@, other.count)),
{
    if count > other.count {
        return true;
    }
    if count < other.count {
        return false;
    }
    match compare_text(value, other.value.as_str()) {
        Comparison::Less => true,
        _ => false,
    }
}

fn top_values(tallies: &Vec<Tally>) -> (listed: Vec<FrequentValue>)
    requires
        in_order(tally_models(tallies@)),
    ensures
        most_frequent(
            frequent_models(listed@),
            tally_models(tallies@),
            FREQUENT_VALUE_LIMIT as nat,
        ),
{
    let ghost entries = tally_models(tallies@);
    let mut listed: Vec<FrequentValue> = Vec::new();
    let mut k: usize = 0;
    proof {
        assert(differ(entries)) by {
            assert forall|i: int, j: int| 0 <= i < j < entries.len() implies (#[trigger] entries[i]).0 != (
            #[trigger] entries[j]).0 by {
                assert(text_before(entries[i].0, entries[j].0));
                lemma_text_before_irreflexive(entries[i].0);
            }
        }
        assert(entries.take(0) =~= Seq::<(Seq<char>, u64)>::empty());
    }
    while k < tallies.len()
        invariant
            k <= tallies@.len(),
            entries == tally_models(tallies@),
            differ(entries),
            most_frequent(
                frequent_models(listed@),
                entries.take(k as int),
                FREQUENT_VALUE_LIMIT as nat,
            ),
        decreases tallies@.len() - k,
    {
        let ghost before = frequent_models(listed@);
        let ghost entry = entries[k as int];
        let value = tallies[k].value.as_str();
        let count: u64 = tallies[k].count;
        assert(entry == (value@, count));
        let mut at: usize = listed.len();
        while at > 0 && ranks_before(count, value, &listed[at - 1])
            invariant
                at <= listed@.len(),
                before == frequent_models(listed@),
                entry == (value@, count),
                forall|i: int|
                    at <= i < before.len() ==> listed_before(entry, #[trigger] before[i]),
            decreases at,
        {
            assert(before[at - 1] == (listed@[at - 1].value@, listed@[at - 1].count));
            at = at - 1;
        }
        proof {
            assert forall|i: int| 0 <= i < at implies listed_before(#[trigger] before[i], entry) by {
                let last = before[at - 1];
                assert(last == (listed@[at - 1].value@, listed@[at - 1].count));
                assert(!listed_before(entry, last));
                let part = entries.take(k as int);
                assert(part.contains(last));
                let n = choose|n: int| 0 <= n < part.len() && part[n] == last;
                assert(entries[n].0 != entries[k as int].0);
                lemma_listed_total(last, entry);
                if i < at - 1 {
                    assert(listed_before(before[i], last));
                    lemma_listed_transitive(before[i], last, entry);
                }
            }
            lemma_placed(before, entries, k as int, at as int, FREQUENT_VALUE_LIMIT as nat);
        }
        listed.insert(at, FrequentValue { value: value.to_owned(), count });
        assert(frequent_models(listed@) =~= before.insert(at as int, entry));
        if listed.len() > FREQUENT_VALUE_LIMIT {
            let ghost longer = frequent_models(listed@);
            listed.pop();
            assert(frequent_models(listed@) =~= longer.drop_last());
        }
        k = k + 1;
    }
    assert(entries.take(k as int) =~= entries);
    listed
}

// ---------------------------------------------------------------------------
// Batches and the profile
// ---------------------------------------------------------------------------

/// The numbers among the values.
pub open spec fn chart_numbers(values: Seq<ProfileInput>) -> Seq<Option<u64>> {
    values.map_values(
        |value: ProfileInput|
            match value {
                ProfileInput::Number { bits, .. } => Some(bits),
                _ => None,
            },
    )
}

/// Whether each sum is what `plus` makes of the sum before and the number, where
/// there is a finite number.
pub open spec fn sums_follow<P: Fn(u64, u64) -> u64>(
    plus: P,
    state: ProfileState,
    values: Seq<ProfileInput>,
    sums: Seq<u64>,
) -> bool {
    &&& sums.len() == values.len()
    &&& forall|i: int|
        0 <= i < values.len() ==> match values_recorded(state, values, sums, i as nat) {
            Ok(before) => match #[trigger] values[i] {
                ProfileInput::Number { bits, .. } => finite(bits) ==> plus.ensures(
                    (before.numeric_sum, bits),
                    sums[i],
                ),
                _ => true,
            },
            Err(_) => true,
        }
}

/// How the distribution goes on with these values.
pub open spec fn distribution_follows(
    before: ProfileAccumulator,
    after: ProfileAccumulator,
    values: Seq<ProfileInput>,
) -> bool {
    match before.sample() {
        None => after.sample() is None && after.sampled() == before.sampled(),
        Some(chart) => after.sample() matches Some(next) && next.settings() == chart.settings()
            && if before.sampled() {
            next@ == chart@ && after.sampled()
        } else {
            exists|input: ChartInput| #[trigger]
                charts_numbers(input, values) && next@ == collected(chart@, &input, 0)
                    && after.sampled() == stops_early(chart@, &input, 0)
        },
    }
}

/// Whether the input of a chart is the numbers among the values.
pub open spec fn charts_numbers(input: ChartInput, values: Seq<ProfileInput>) -> bool {
    input is Values && input->Values_0@ == chart_numbers(values)
}

proof fn lemma_values_stop(
    state: ProfileState,
    values: Seq<ProfileInput>,
    sums: Seq<u64>,
    count: nat,
    later: nat,
)
    requires
        count <= later,
        values_recorded(state, values, sums, count) is Err,
    ensures
        values_recorded(state, values, sums, later) == values_recorded(state, values, sums, count),
    decreases later - count,
{
    if count < later {
        lemma_values_stop(state, values, sums, count, (later - 1) as nat);
    }
}

/// Only the first sums matter for the first values.
proof fn lemma_sums_prefix(
    state: ProfileState,
    values: Seq<ProfileInput>,
    sums: Seq<u64>,
    others: Seq<u64>,
    count: nat,
)
    requires
        forall|i: int| 0 <= i < count ==> sums[i] == others[i],
    ensures
        values_recorded(state, values, sums, count) == values_recorded(
            state,
            values,
            others,
            count,
        ),
    decreases count,
{
    if count > 0 {
        lemma_sums_prefix(state, values, sums, others, (count - 1) as nat);
    }
}

fn numbers_charted(values: &Vec<ProfileValue>) -> (numbers: Vec<Option<u64>>)
    ensures
        numbers@ == chart_numbers(inputs(values@)),
{
    let mut numbers: Vec<Option<u64>> = Vec::new();
    let mut i: usize = 0;
    while i < values.len()
        invariant
            i <= values@.len(),
            numbers@.len() == i,
            forall|k: int|
                0 <= k < i ==> #[trigger] numbers@[k] == chart_numbers(inputs(values@))[k],
        decreases values@.len() - i,
    {
        numbers.push(
            match &values[i] {
                ProfileValue::Number { bits, .. } => Some(*bits),
                _ => None,
            },
        );
        i = i + 1;
    }
    assert(numbers@ =~= chart_numbers(inputs(values@)));
    numbers
}

impl ProfileAccumulator {
    /// Goes on with the distribution, unless it is full.
    fn push_sample(&mut self, values: &Vec<ProfileValue>) -> (result: Result<(), ProfileError>)
        requires
            old(self).wf(),
            old(self)@.row_count + values@.len() <= usize::MAX,
        ensures
            final(self).continues(old(self)),
            final(self)@ == old(self)@,
            final(self).entries_sound(),
            final(self).charts_numbers_only(),
            final(self).sample() matches Some(chart) ==> chart.wf() && chart.settings().kind
                == ChartKind::Histogram && chart@.skipped_rows <= old(self)@.row_count
                + values@.len(),
            match result {
                Ok(()) => distribution_follows(*old(self), *final(self), inputs(values@)),
                Err(ProfileError::Chart(error)) => error is NoColumn && old(self).sample() is Some
                    && !old(self).sampled() && crate::text::trimmed(
                    old(self).sample()->0.settings().x_column@,
                ) != old(self).subject().1 && final(self).wf(),
                Err(_) => false,
            },
    {
        if self.distribution_sampled {
            return Ok(());
        }
        let ghost name = self.name@;
        let mut fields: Vec<Field> = Vec::new();
        fields.push(
            Field {
                name: self.name.as_str().to_owned(),
                data_type: self.data_type,
                type_text: String::new(),
                nullable: true,
                children: Vec::new(),
            },
        );
        let input = ChartInput::Values(numbers_charted(values));
        proof {
            let names = crate::schema::field_names(fields@);
            assert(names =~= seq![name]);
            if self.sample() is Some {
                let chart = self.sample()->0;
                let wanted = crate::text::trimmed(chart.settings().x_column@);
                crate::seqs::lemma_first_index(names, wanted);
                if wanted != name {
                    assert(!names.contains(wanted));
                } else {
                    assert(names.contains(names[0]));
                }
                lemma_skipped_grows(chart@, &input, 0);
            }
            assert(charts_numbers(input, inputs(values@)));
        }
        match &mut self.chart {
            None => Ok(()),
            Some(chart) => match chart.push_batch(&fields, &input) {
                Ok(more) => {
                    if !more {
                        self.distribution_sampled = true;
                    }
                    Ok(())
                },
                Err(error) => Err(ProfileError::Chart(error)),
            },
        }
    }

    /// A distribution is kept of columns of numbers only.
    pub open spec fn charts_numbers_only(&self) -> bool {
        self.sample() is Some ==> self.subject().2.numeric()
    }
}

impl ProfileAccumulator {
    /// Takes in some values of the column, of type `data_type`. `plus` adds two
    /// numbers.
    pub fn push_batch<P: Fn(u64, u64) -> u64>(
        &mut self,
        data_type: DataType,
        values: &Vec<ProfileValue>,
        plus: P,
    ) -> (result: Result<(), ProfileError>)
        requires
            old(self).wf(),
            old(self)@.row_count + values@.len() <= usize::MAX,
            forall|sum: u64, number: u64| plus.requires((sum, number)),
        ensures
            final(self).continues(old(self)),
            match result {
                Ok(()) => final(self).wf() && data_type == old(self).subject().2
                    && distribution_follows(*old(self), *final(self), inputs(values@)) && exists|
                    sums: Seq<u64>,
                | #[trigger]
                    sums_follow(plus, old(self)@, inputs(values@), sums) && values_recorded(
                        old(self)@,
                        inputs(values@),
                        sums,
                        values@.len(),
                    ) == Ok::<ProfileState, ProfileFault>(final(self)@),
                Err(error) => match error {
                    ProfileError::TypeChanged => data_type != old(self).subject().2,
                    ProfileError::Chart(chart) => data_type == old(self).subject().2
                        && chart is NoColumn && old(self).sample() is Some && !old(self).sampled()
                        && crate::text::trimmed(old(self).sample()->0.settings().x_column@) != old(
                        self,
                    ).subject().1,
                    _ => data_type == old(self).subject().2 && exists|sums: Seq<u64>|
                        #[trigger] sums_follow(plus, old(self)@, inputs(values@), sums) && (
                        values_recorded(
                            old(self)@,
                            inputs(values@),
                            sums,
                            values@.len(),
                        ) matches Err(fault) && error.reports(fault)),
                },
            },
    {
        if self.data_type != data_type {
            return Err(ProfileError::TypeChanged);
        }
        let ghost start = self@;
        let ghost wanted = inputs(values@);
        match self.push_sample(values) {
            Ok(()) => {},
            Err(error) => return Err(error),
        }
        let ghost held = self.sample();
        let ghost full = self.sampled();
        let ghost mut sums: Seq<u64> = Seq::empty();
        let mut i: usize = 0;
        while i < values.len()
            invariant
                i <= values@.len(),
                wanted == inputs(values@),
                start == old(self)@,
                start.row_count + values@.len() <= usize::MAX,
                data_type == old(self).subject().2,
                forall|sum: u64, number: u64| plus.requires((sum, number)),
                self.continues(old(self)),
                self.charts_numbers_only(),
                self.sample() == held,
                self.sampled() == full,
                held matches Some(chart) ==> chart.wf() && chart.settings().kind
                    == ChartKind::Histogram && chart@.skipped_rows <= start.row_count
                    + values@.len(),
                self.entries_sound(),
                self@.row_count == start.row_count + i,
                sums.len() == i,
                values_recorded(start, wanted, sums, i as nat) == Ok::<ProfileState, ProfileFault>(
                    self@,
                ),
                forall|k: int|
                    0 <= k < i ==> match values_recorded(start, wanted, sums, k as nat) {
                        Ok(before) => match #[trigger] wanted[k] {
                            ProfileInput::Number { bits, .. } => finite(bits) ==> plus.ensures(
                                (before.numeric_sum, bits),
                                sums[k],
                            ),
                            _ => true,
                        },
                        Err(_) => true,
                    },
            decreases values@.len() - i,
        {
            let ghost before = self@;
            let sum: u64 = match &values[i] {
                ProfileValue::Number { bits, .. } => if finite_number(*bits) {
                    plus(self.numeric_sum, *bits)
                } else {
                    0
                },
                _ => 0,
            };
            let ghost fewer = sums;
            proof {
                sums = sums.push(sum);
                assert(wanted[i as int] == values@[i as int]@);
                lemma_sums_prefix(start, wanted, sums, fewer, i as nat);
            }
            match self.push_value(&values[i], sum) {
                Ok(()) => {},
                Err(error) => {
                    proof {
                        let padded = sums + Seq::new(
                            (values@.len() - sums.len()) as nat,
                            |k: int| 0u64,
                        );
                        lemma_sums_prefix(start, wanted, padded, sums, (i + 1) as nat);
                        lemma_values_stop(start, wanted, padded, (i + 1) as nat, values@.len());
                        assert forall|k: int| 0 <= k < wanted.len() implies match values_recorded(
                            start,
                            wanted,
                            padded,
                            k as nat,
                        ) {
                            Ok(state) => match #[trigger] wanted[k] {
                                ProfileInput::Number { bits, .. } => finite(bits) ==> plus.ensures(
                                    (state.numeric_sum, bits),
                                    padded[k],
                                ),
                                _ => true,
                            },
                            Err(_) => true,
                        } by {
                            if k <= i {
                                lemma_sums_prefix(start, wanted, padded, fewer, k as nat);
                            } else {
                                lemma_values_stop(
                                    start,
                                    wanted,
                                    padded,
                                    (i + 1) as nat,
                                    k as nat,
                                );
                            }
                        }
                        assert(sums_follow(plus, start, wanted, padded));
                    }
                    return Err(error);
                },
            }
            proof {
                assert forall|k: int| 0 <= k < i + 1 implies match values_recorded(
                    start,
                    wanted,
                    sums,
                    k as nat,
                ) {
                    Ok(state) => match #[trigger] wanted[k] {
                        ProfileInput::Number { bits, .. } => finite(bits) ==> plus.ensures(
                            (state.numeric_sum, bits),
                            sums[k],
                        ),
                        _ => true,
                    },
                    Err(_) => true,
                } by {
                    lemma_sums_prefix(start, wanted, sums, fewer, k as nat);
                }
            }
            i = i + 1;
        }
        assert(sums_follow(plus, start, wanted, sums));
        Ok(())
    }
}

impl ProfileAccumulator {
    /// The profile of the values that were met. `divide` divides a sum of numbers,
    /// and `ratio` a sum of lengths, by how many there are; `locate` and `edge` place
    /// the values of the distribution.
    pub fn finish<D, R, L, E>(self, divide: D, ratio: R, locate: L, edge: E) -> (profile:
        ColumnProfile) where
        D: Fn(u64, u64) -> u64,
        R: Fn(u64, u64) -> u64,
        L: Fn(u64, u64, u64, usize) -> usize,
        E: Fn(u64, u64, usize, usize) -> u64,

        requires
            self.wf(),
            forall|sum: u64, count: u64| divide.requires((sum, count)),
            forall|sum: u64, count: u64| ratio.requires((sum, count)),
            forall|value: u64, min: u64, max: u64, count: usize|
                locate.requires((value, min, max, count)),
            forall|min: u64, max: u64, count: usize, index: usize|
                edge.requires((min, max, count, index)),
        ensures
            (profile.column, profile.name@, profile.data_type, profile.metadata_null_count)
                == self.subject(),
            profile.row_count == self@.row_count,
            profile.null_count == self@.null_count,
            profile.distinct_count == self@.distinct.len(),
            match profile.min {
                Some(text) => self@.min == Some(text@),
                None => self@.min is None,
            },
            match profile.max {
                Some(text) => self@.max == Some(text@),
                None => self@.max is None,
            },
            match profile.mean {
                Some(mean) => self@.numeric_count > 0 && divide.ensures(
                    (self@.numeric_sum, self@.numeric_count),
                    mean,
                ),
                None => self@.numeric_count == 0,
            },
            match profile.string_lengths {
                Some(lengths) => self@.length_min == Some(lengths.min) && lengths.max
                    == self@.length_max && ratio.ensures(
                    (self@.length_sum, present_count(self@)),
                    lengths.mean,
                ),
                None => self@.length_min is None,
            },
            most_frequent(
                frequent_models(profile.frequent_values@),
                self@.distinct,
                FREQUENT_VALUE_LIMIT as nat,
            ),
            match self.sample() {
                Some(chart) => profile.distribution matches Some(model) && chart_of(
                    model,
                    chart.settings(),
                    chart@,
                    locate,
                    edge,
                ),
                None => profile.distribution is None,
            },
            profile.distribution_sampled == self.sampled(),
            profile.non_finite_count == self@.non_finite_count,
    {
        let frequent_values = top_values(&self.distinct);
        let distinct_count: usize = self.distinct.len();
        let present: u64 = self.row_count.saturating_sub(self.null_count);
        let divisor: u64 = if present == 0 {
            1
        } else {
            present
        };
        let string_lengths = match self.string_length_min {
            Some(min) => Some(
                StringLengthStats {
                    min,
                    max: self.string_length_max,
                    mean: ratio(self.string_length_sum, divisor),
                },
            ),
            None => None,
        };
        let mean: Option<u64> = if self.numeric_count > 0 {
            Some(divide(self.numeric_sum, self.numeric_count))
        } else {
            None
        };
        let distribution = match self.chart {
            Some(chart) => Some(chart.finish(locate, edge)),
            None => None,
        };
        ColumnProfile {
            column: self.column,
            name: self.name,
            data_type: self.data_type,
            row_count: self.row_count,
            null_count: self.null_count,
            metadata_null_count: self.metadata_null_count,
            distinct_count,
            min: self.min,
            max: self.max,
            mean,
            string_lengths,
            frequent_values,
            distribution,
            distribution_sampled: self.distribution_sampled,
            non_finite_count: self.non_finite_count,
        }
    }
}

/// How many values are not missing, but at least 1.
pub open spec fn present_count(state: ProfileState) -> u64 {
    if state.row_count > state.null_count {
        (state.row_count - state.null_count) as u64
    } else {
        1
    }
}

// ---------------------------------------------------------------------------
// Laws
// ---------------------------------------------------------------------------

/// How often values occurred, all together.
pub open spec fn occurrences(entries: Seq<(Seq<char>, u64)>) -> nat
    decreases entries.len(),
{
    if entries.len() == 0 {
        0
    } else {
        occurrences(entries.drop_last()) + entries.last().1 as nat
    }
}

proof fn lemma_occurrences_update(entries: Seq<(Seq<char>, u64)>, k: int, entry: (Seq<char>, u64))
    requires
        0 <= k < entries.len(),
    ensures
        occurrences(entries.update(k, entry)) == occurrences(entries) - entries[k].1 + entry.1,
        entries[k].1 <= occurrences(entries),
    decreases entries.len(),
{
    let after = entries.update(k, entry);
    if k == entries.len() - 1 {
        assert(after.drop_last() =~= entries.drop_last());
    } else {
        lemma_occurrences_update(entries.drop_last(), k, entry);
        assert(after.drop_last() =~= entries.drop_last().update(k, entry));
    }
}

proof fn lemma_occurrences_insert(entries: Seq<(Seq<char>, u64)>, k: int, entry: (Seq<char>, u64))
    requires
        0 <= k <= entries.len(),
    ensures
        occurrences(entries.insert(k, entry)) == occurrences(entries) + entry.1,
    decreases entries.len(),
{
    let after = entries.insert(k, entry);
    if k == entries.len() {
        assert(after.drop_last() =~= entries);
    } else {
        lemma_occurrences_insert(entries.drop_last(), k, entry);
        assert(after.drop_last() =~= entries.drop_last().insert(k, entry));
    }
}

proof fn lemma_place_of_occurred(entries: Seq<(Seq<char>, u64)>, value: Seq<char>)
    requires
        in_order(entries),
    ensures
        0 <= place_of(entries, value) <= entries.len(),
        occurred(entries, value) ==> place_of(entries, value) < entries.len()
            && entries[place_of(entries, value)].0 == value,
    decreases entries.len(),
{
    if entries.len() > 0 {
        let init = entries.drop_last();
        assert(in_order(init)) by {
            assert forall|i: int, j: int| 0 <= i < j < init.len() implies text_before(
                (#[trigger] init[i]).0,
                (#[trigger] init[j]).0,
            ) by {
                assert(text_before(entries[i].0, entries[j].0));
            }
        }
        lemma_place_of_occurred(init, value);
        if occurred(entries, value) {
            let i = choose|i: int| 0 <= i < entries.len() && (#[trigger] entries[i]).0 == value;
            let last = entries.len() - 1;
            if text_before(entries[last].0, value) {
                lemma_text_before_irreflexive(value);
                assert(i < last);
                assert(text_before(entries[i].0, entries[last].0));
                lemma_text_before_transitive(value, entries[last].0, value);
                assert(false);
            } else if i < last {
                assert(init[i].0 == value);
                assert(occurred(init, value));
                assert(init[place_of(init, value)] == entries[place_of(init, value)]);
            } else if place_of(init, value) < init.len() {
                // The value stands last; all before it are smaller.
                let p = place_of(init, value);
                lemma_all_before_place(init, entries[last].0);
                assert(false);
            }
        }
    }
}

/// Where all entries are before a value, its place is behind them.
proof fn lemma_all_before_place(entries: Seq<(Seq<char>, u64)>, value: Seq<char>)
    requires
        forall|i: int| 0 <= i < entries.len() ==> text_before((#[trigger] entries[i]).0, value),
    ensures
        place_of(entries, value) == entries.len(),
{
    if entries.len() > 0 {
        assert(text_before(entries[entries.len() - 1].0, value));
    }
}

/// Every value that is met is either missing or counted: the counts of the values
/// that occurred and the number of missing ones add up to the number of values.
pub proof fn law_counts_add_up(
    state: ProfileState,
    value: ProfileInput,
    sum: u64,
    next: ProfileState,
)
    requires
        in_order(state.distinct),
        occurrences(state.distinct) + state.null_count == state.row_count,
        state.row_count < u64::MAX,
        value_recorded(state, value, sum) == Ok::<ProfileState, ProfileFault>(next),
    ensures
        occurrences(next.distinct) + next.null_count == next.row_count,
{
    let text = match value {
        ProfileInput::Number { text, .. } => text,
        ProfileInput::Text(text) => text,
        ProfileInput::Null => Seq::empty(),
    };
    if !(value is Null) {
        let place = place_of(state.distinct, text);
        lemma_place_of_occurred(state.distinct, text);
        if occurred(state.distinct, text) {
            let entry = (text, one_more(state.distinct[place].1));
            lemma_occurrences_update(state.distinct, place, entry);
        } else {
            lemma_occurrences_insert(state.distinct, place, (text, 1));
        }
    }
}

/// The text of a value that is not missing.
pub open spec fn text_met(value: ProfileInput) -> Option<Seq<char>> {
    match value {
        ProfileInput::Null => None,
        ProfileInput::Number { text, .. } => Some(text),
        ProfileInput::Text(text) => Some(text),
    }
}

/// How often a text occurs among the first `n` values.
pub open spec fn times_met(values: Seq<ProfileInput>, n: nat, text: Seq<char>) -> nat
    decreases n,
{
    if n == 0 {
        0
    } else {
        times_met(values, (n - 1) as nat, text) + if text_met(values[n - 1]) == Some(text) {
            1nat
        } else {
            0nat
        }
    }
}

/// How many of the first `n` values are missing.
pub open spec fn nulls_met(values: Seq<ProfileInput>, n: nat) -> nat
    decreases n,
{
    if n == 0 {
        0
    } else {
        nulls_met(values, (n - 1) as nat) + if values[n - 1] is Null {
            1nat
        } else {
            0nat
        }
    }
}

/// How many of the first `n` values are numbers between the infinities, where `finite` is
/// true, or other floating-point values.
pub open spec fn numbers_met(values: Seq<ProfileInput>, n: nat, numbers: bool) -> nat
    decreases n,
{
    if n == 0 {
        0
    } else {
        numbers_met(values, (n - 1) as nat, numbers) + match values[n - 1] {
            ProfileInput::Number { bits, .. } => if is_number_bits(bits) == numbers {
                1nat
            } else {
                0nat
            },
            _ => 0nat,
        }
    }
}

/// Whether the entries are the texts among the first `n` values, each once, with how often
/// it occurs.
pub open spec fn entries_tell(
    entries: Seq<(Seq<char>, u64)>,
    values: Seq<ProfileInput>,
    n: nat,
) -> bool {
    &&& in_order(entries)
    &&& forall|k: int|
        0 <= k < entries.len() ==> (#[trigger] entries[k]).1 == times_met(values, n, entries[k].0)
            && entries[k].1 > 0
    &&& forall|i: int|
        0 <= i < n && text_met(#[trigger] values[i]) is Some ==> occurred(
            entries,
            text_met(values[i])->0,
        )
}

proof fn lemma_times_met_grow(values: Seq<ProfileInput>, n: nat, text: Seq<char>)
    requires
        n > 0,
    ensures
        times_met(values, (n - 1) as nat, text) <= times_met(values, n, text) <= n,
    decreases n,
{
    if n > 1 {
        lemma_times_met_grow(values, (n - 1) as nat, text);
    }
}

proof fn lemma_place_parts(entries: Seq<(Seq<char>, u64)>, value: Seq<char>)
    requires
        in_order(entries),
    ensures
        0 <= place_of(entries, value) <= entries.len(),
        forall|i: int|
            0 <= i < place_of(entries, value) ==> text_before((#[trigger] entries[i]).0, value),
        forall|i: int|
            place_of(entries, value) <= i < entries.len() ==> !text_before(
                (#[trigger] entries[i]).0,
                value,
            ),
    decreases entries.len(),
{
    if entries.len() > 0 {
        let init = entries.drop_last();
        let last = entries.len() - 1;
        assert forall|i: int, j: int| 0 <= i < j < init.len() implies text_before(
            (#[trigger] init[i]).0,
            (#[trigger] init[j]).0,
        ) by {
            assert(text_before(entries[i].0, entries[j].0));
        }
        lemma_place_parts(init, value);
        if text_before(entries[last].0, value) {
            assert forall|i: int| 0 <= i < entries.len() implies text_before(
                (#[trigger] entries[i]).0,
                value,
            ) by {
                if i < last {
                    assert(text_before(entries[i].0, entries[last].0));
                    lemma_text_before_transitive(entries[i].0, entries[last].0, value);
                }
            }
        } else {
            assert forall|i: int| 0 <= i < place_of(init, value) implies text_before(
                (#[trigger] entries[i]).0,
                value,
            ) by {
                assert(init[i] == entries[i]);
            }
            assert forall|i: int| place_of(init, value) <= i < entries.len() implies !text_before(
                (#[trigger] entries[i]).0,
                value,
            ) by {
                if i < last {
                    assert(init[i] == entries[i]);
                }
            }
        }
    }
}

proof fn lemma_entries_step(
    entries: Seq<(Seq<char>, u64)>,
    bytes: nat,
    values: Seq<ProfileInput>,
    n: nat,
    next: Seq<(Seq<char>, u64)>,
    more: nat,
)
    requires
        0 < n < u64::MAX,
        n <= values.len(),
        text_met(values[n - 1]) is Some,
        entries_tell(entries, values, (n - 1) as nat),
        distinct_recorded(entries, bytes, text_met(values[n - 1])->0) == Ok::<
            (Seq<(Seq<char>, u64)>, nat),
            ProfileFault,
        >((next, more)),
    ensures
        entries_tell(next, values, n),
{
    let text = text_met(values[n - 1])->0;
    let place = place_of(entries, text);
    let fewer = (n - 1) as nat;
    lemma_place_parts(entries, text);
    lemma_place_of_occurred(entries, text);
    if occurred(entries, text) {
        let entry = (text, one_more(entries[place].1));
        if fewer > 0 {
            lemma_times_met_grow(values, fewer, text);
        }
        lemma_times_met_grow(values, n, text);
        assert(entries[place].1 == times_met(values, fewer, text));
        assert(entry.1 == times_met(values, n, text));
        assert forall|i: int, j: int| 0 <= i < j < next.len() implies text_before(
            (#[trigger] next[i]).0,
            (#[trigger] next[j]).0,
        ) by {
            assert(text_before(entries[i].0, entries[j].0));
        }
        assert forall|k: int| 0 <= k < next.len() implies (#[trigger] next[k]).1 == times_met(
            values,
            n,
            next[k].0,
        ) && next[k].1 > 0 by {
            if k != place {
                assert(next[k] == entries[k]);
                if k < place {
                    assert(text_before(entries[k].0, entries[place].0));
                } else {
                    assert(text_before(entries[place].0, entries[k].0));
                }
                lemma_text_before_irreflexive(text);
                assert(entries[k].0 != text);
            }
        }
        assert forall|i: int| 0 <= i < n && text_met(#[trigger] values[i]) is Some implies occurred(
            next,
            text_met(values[i])->0,
        ) by {
            if i < fewer {
                let k = choose|k: int|
                    0 <= k < entries.len() && (#[trigger] entries[k]).0 == text_met(values[i])->0;
                assert(next[k].0 == entries[k].0);
            } else {
                assert(next[place].0 == text);
            }
        }
    } else {
        assert(next == entries.insert(place, (text, 1)));
        lemma_never_met(entries, values, fewer, text);
        assert forall|i: int, j: int| 0 <= i < j < next.len() implies text_before(
            (#[trigger] next[i]).0,
            (#[trigger] next[j]).0,
        ) by {
            if j < place {
                assert(text_before(entries[i].0, entries[j].0));
            } else if j == place {
                assert(text_before(entries[i].0, text));
            } else if i < place {
                assert(text_before(entries[i].0, entries[j - 1].0));
            } else if i == place {
                assert(!text_before(entries[j - 1].0, text));
                lemma_text_before_total(entries[j - 1].0, text);
                assert(entries[j - 1].0 != text);
            } else {
                assert(text_before(entries[i - 1].0, entries[j - 1].0));
            }
        }
        assert forall|k: int| 0 <= k < next.len() implies (#[trigger] next[k]).1 == times_met(
            values,
            n,
            next[k].0,
        ) && next[k].1 > 0 by {
            if k != place {
                let old_k = if k < place {
                    k
                } else {
                    k - 1
                };
                assert(next[k] == entries[old_k]);
                assert(entries[old_k].0 != text);
            }
        }
        assert forall|i: int| 0 <= i < n && text_met(#[trigger] values[i]) is Some implies occurred(
            next,
            text_met(values[i])->0,
        ) by {
            if i < fewer {
                let k = choose|k: int|
                    0 <= k < entries.len() && (#[trigger] entries[k]).0 == text_met(values[i])->0;
                if k < place {
                    assert(next[k] == entries[k]);
                } else {
                    assert(next[k + 1] == entries[k]);
                }
            } else {
                assert(next[place].0 == text);
            }
        }
    }
}

proof fn lemma_never_met(
    entries: Seq<(Seq<char>, u64)>,
    values: Seq<ProfileInput>,
    n: nat,
    text: Seq<char>,
)
    requires
        n <= values.len(),
        !occurred(entries, text),
        forall|i: int|
            0 <= i < n && text_met(#[trigger] values[i]) is Some ==> occurred(
                entries,
                text_met(values[i])->0,
            ),
    ensures
        times_met(values, n, text) == 0,
    decreases n,
{
    if n > 0 {
        lemma_never_met(entries, values, (n - 1) as nat, text);
        let last = values[n - 1];
        assert(text_met(last) is Some ==> occurred(entries, text_met(last)->0));
    }
}

/// What a profile counts is there: it counts every value, the missing ones among them, each
/// distinct text with the number of times that it occurs, and the numbers apart from the
/// floating-point values that are none.
pub proof fn law_profile_counts_what_is_there(
    values: Seq<ProfileInput>,
    sums: Seq<u64>,
    n: nat,
    state: ProfileState,
)
    requires
        n <= values.len(),
        n < u64::MAX,
        values_recorded(profile_start(), values, sums, n) == Ok::<ProfileState, ProfileFault>(state),
    ensures
        state.row_count == n,
        state.null_count == nulls_met(values, n) <= n,
        entries_tell(state.distinct, values, n),
        state.numeric_count == numbers_met(values, n, true) <= n,
        state.non_finite_count == numbers_met(values, n, false) <= n,
    decreases n,
{
    if n > 0 {
        let fewer = (n - 1) as nat;
        let before = values_recorded(profile_start(), values, sums, fewer)->Ok_0;
        law_profile_counts_what_is_there(values, sums, fewer, before);
        let last = values[n - 1];
        match last {
            ProfileInput::Null => {
                assert forall|k: int| 0 <= k < before.distinct.len() implies (
                #[trigger] before.distinct[k]).1 == times_met(values, n, before.distinct[k].0)
                    && before.distinct[k].1 > 0 by {}
                assert forall|i: int|
                    0 <= i < n && text_met(#[trigger] values[i]) is Some implies occurred(
                    before.distinct,
                    text_met(values[i])->0,
                ) by {
                    assert(i < fewer);
                }
            },
            ProfileInput::Number { bits, text } => {
                let (distinct, bytes) = distinct_recorded(
                    before.distinct,
                    before.distinct_bytes,
                    text,
                )->Ok_0;
                lemma_entries_step(before.distinct, before.distinct_bytes, values, n, distinct, bytes);
                law_finite_values_are_numbers(bits);
            },
            ProfileInput::Text(text) => {
                let (distinct, bytes) = distinct_recorded(
                    before.distinct,
                    before.distinct_bytes,
                    text,
                )->Ok_0;
                lemma_entries_step(before.distinct, before.distinct_bytes, values, n, distinct, bytes);
            },
        }
    }
}

/// Whether the values are all numbers or missing.
pub open spec fn only_numbers(values: Seq<ProfileInput>) -> bool {
    forall|i: int| 0 <= i < values.len() ==> !(#[trigger] values[i] is Text)
}

/// Whether the values are all texts or missing.
pub open spec fn only_texts(values: Seq<ProfileInput>) -> bool {
    forall|i: int| 0 <= i < values.len() ==> !(#[trigger] values[i] is Number)
}

/// Whether the value at `i` is the number with these bits, written like this.
pub open spec fn is_number_at(
    values: Seq<ProfileInput>,
    i: int,
    bits: u64,
    text: Seq<char>,
) -> bool {
    values[i] == (ProfileInput::Number { bits, text })
}

proof fn lemma_number_below(a: u64, b: u64)
    ensures
        number_below(a, b) <==> float_units(a) < float_units(b),
{
    law_float_key_orders_numbers(a, b);
    law_float_key_orders_numbers(b, a);
    lemma_zero_units(a);
    lemma_zero_units(b);
}

/// The least and the greatest number of a profile are the least and the greatest of the
/// numbers that were met, written as they were; the sum takes in each number.
pub proof fn law_profile_bounds_the_numbers(
    values: Seq<ProfileInput>,
    sums: Seq<u64>,
    n: nat,
    state: ProfileState,
)
    requires
        n <= values.len(),
        n < u64::MAX,
        only_numbers(values),
        values_recorded(profile_start(), values, sums, n) == Ok::<ProfileState, ProfileFault>(state),
    ensures
        state.numeric_min is Some <==> numbers_met(values, n, true) > 0,
        state.numeric_max is Some <==> numbers_met(values, n, true) > 0,
        state.min is Some <==> state.numeric_min is Some,
        state.max is Some <==> state.numeric_max is Some,
        state.numeric_min is Some ==> exists|i: int|
            0 <= i < n && #[trigger] is_number_at(values, i, state.numeric_min->0, state.min->0),
        state.numeric_max is Some ==> exists|i: int|
            0 <= i < n && #[trigger] is_number_at(values, i, state.numeric_max->0, state.max->0),
        forall|i: int|
            0 <= i < n && (#[trigger] values[i] matches ProfileInput::Number { bits, .. }
                && is_number_bits(bits)) ==> state.numeric_min is Some && state.numeric_max is Some
                && float_units(state.numeric_min->0) <= float_units(values[i]->bits) <= float_units(
                state.numeric_max->0,
            ),
        n > 0 && (values[n - 1] matches ProfileInput::Number { bits, .. } && is_number_bits(bits))
            ==> state.numeric_sum == sums[n - 1],
        n > 0 && !(values[n - 1] matches ProfileInput::Number { bits, .. } && is_number_bits(bits))
            ==> values_recorded(profile_start(), values, sums, (n - 1) as nat) is Ok
            && state.numeric_sum == values_recorded(
            profile_start(),
            values,
            sums,
            (n - 1) as nat,
        )->Ok_0.numeric_sum,
    decreases n,
{
    if n > 0 {
        let fewer = (n - 1) as nat;
        let before = values_recorded(profile_start(), values, sums, fewer)->Ok_0;
        law_profile_bounds_the_numbers(values, sums, fewer, before);
        assert(!(values[n - 1] is Text));
        match values[n - 1] {
            ProfileInput::Number { bits, text } => {
                law_finite_values_are_numbers(bits);
                if let Some(least) = before.numeric_min {
                    lemma_number_below(bits, least);
                }
                if let Some(greatest) = before.numeric_max {
                    lemma_number_below(greatest, bits);
                }
                assert(is_number_at(values, n - 1, bits, text));
            },
            _ => {},
        }
        if values[n - 1] is Number && !(state.numeric_min == before.numeric_min && state.min
            == before.min) {
            assert(is_number_at(values, n - 1, state.numeric_min->0, state.min->0));
        }
        if values[n - 1] is Number && !(state.numeric_max == before.numeric_max && state.max
            == before.max) {
            assert(is_number_at(values, n - 1, state.numeric_max->0, state.max->0));
        }
        if state.numeric_min is Some && state.numeric_min == before.numeric_min && state.min
            == before.min {
            let i = choose|i: int|
                0 <= i < fewer && #[trigger] is_number_at(
                    values,
                    i,
                    before.numeric_min->0,
                    before.min->0,
                );
            assert(is_number_at(values, i, state.numeric_min->0, state.min->0));
        }
        if state.numeric_max is Some && state.numeric_max == before.numeric_max && state.max
            == before.max {
            let i = choose|i: int|
                0 <= i < fewer && #[trigger] is_number_at(
                    values,
                    i,
                    before.numeric_max->0,
                    before.max->0,
                );
            assert(is_number_at(values, i, state.numeric_max->0, state.max->0));
        }
    }
}

proof fn lemma_length_within_bytes(text: Seq<char>)
    ensures
        text.len() <= byte_len(text),
    decreases text.len(),
{
    if text.len() > 0 {
        lemma_length_within_bytes(text.drop_last());
    }
}

/// The least and the greatest text of a profile are the first and the last in the order of
/// texts of those that were met, and the lengths are those of the shortest and the longest.
pub proof fn law_profile_bounds_the_texts(
    values: Seq<ProfileInput>,
    sums: Seq<u64>,
    n: nat,
    state: ProfileState,
)
    requires
        n <= values.len(),
        n < u64::MAX,
        only_texts(values),
        values_recorded(profile_start(), values, sums, n) == Ok::<ProfileState, ProfileFault>(state),
    ensures
        state.min is Some <==> nulls_met(values, n) < n,
        state.max is Some <==> state.min is Some,
        state.length_min is Some <==> state.min is Some,
        state.min is Some ==> exists|i: int|
            0 <= i < n && #[trigger] values[i] == ProfileInput::Text(state.min->0),
        state.max is Some ==> exists|i: int|
            0 <= i < n && #[trigger] values[i] == ProfileInput::Text(state.max->0),
        forall|i: int|
            0 <= i < n && (#[trigger] values[i] is Text) ==> state.min is Some && !text_before(
                values[i]->Text_0,
                state.min->0,
            ) && !text_before(state.max->0, values[i]->Text_0) && state.length_min->0
                <= values[i]->Text_0.len() <= state.length_max,
        state.min is Some ==> exists|i: int|
            0 <= i < n && (#[trigger] values[i] matches ProfileInput::Text(text) && text.len()
                == state.length_min->0),
        state.min is Some ==> exists|i: int|
            0 <= i < n && (#[trigger] values[i] matches ProfileInput::Text(text) && text.len()
                == state.length_max),
        nulls_met(values, n) <= n,
        state.min is None ==> state.length_max == 0,
    decreases n,
{
    if n > 0 {
        let fewer = (n - 1) as nat;
        let before = values_recorded(profile_start(), values, sums, fewer)->Ok_0;
        law_profile_bounds_the_texts(values, sums, fewer, before);
        assert(!(values[n - 1] is Number));
        match values[n - 1] {
            ProfileInput::Text(text) => {
                lemma_length_within_bytes(text);
                lemma_text_before_irreflexive(text);
                if let Some(least) = before.min {
                    let greatest = before.max->0;
                    lemma_text_before_total(text, least);
                    lemma_text_before_total(text, greatest);
                    assert forall|i: int| 0 <= i < n && (#[trigger] values[i] is Text) implies
                        !text_before(values[i]->Text_0, state.min->0) && !text_before(
                        state.max->0,
                        values[i]->Text_0,
                    ) by {
                        let other = values[i]->Text_0;
                        if i < fewer {
                            lemma_text_before_total(other, least);
                            lemma_text_before_total(other, greatest);
                            if text_before(text, least) && text_before(other, text) {
                                lemma_text_before_transitive(other, text, least);
                            }
                            if text_before(greatest, text) && text_before(text, other) {
                                lemma_text_before_transitive(greatest, text, other);
                            }
                        }
                    }
                }
                assert(values[n - 1] == ProfileInput::Text(text));
            },
            _ => {},
        }
    }
}

/// The numbers between the infinities among the first `n` values, in their order.
pub open spec fn numbers_in(values: Seq<ProfileInput>, n: nat) -> Seq<u64>
    decreases n,
{
    if n == 0 {
        Seq::empty()
    } else {
        let before = numbers_in(values, (n - 1) as nat);
        match values[n - 1] {
            ProfileInput::Number { bits, .. } => if is_number_bits(bits) {
                before.push(bits)
            } else {
                before
            },
            _ => before,
        }
    }
}

/// Whether the sums start at zero and each is the one before it with the next number added.
pub open spec fn adds_up<P: Fn(u64, u64) -> u64>(
    plus: P,
    sums: Seq<u64>,
    numbers: Seq<u64>,
) -> bool {
    sums.len() == numbers.len() + 1 && sums[0] == 0 && forall|k: int|
        0 <= k < numbers.len() ==> plus.ensures((sums[k], #[trigger] numbers[k]), sums[k + 1])
}

/// The sum from which the mean of a profile is taken is the sum of all numbers that were
/// met: starting from zero, each is added to the sum so far.
pub proof fn law_profile_adds_every_number<P: Fn(u64, u64) -> u64>(
    plus: P,
    values: Seq<ProfileInput>,
    sums: Seq<u64>,
    n: nat,
    state: ProfileState,
) -> (partial: Seq<u64>)
    requires
        n <= values.len(),
        sums_follow(plus, profile_start(), values, sums),
        values_recorded(profile_start(), values, sums, n) == Ok::<ProfileState, ProfileFault>(state),
    ensures
        adds_up(plus, partial, numbers_in(values, n)),
        partial.last() == state.numeric_sum,
    decreases n,
{
    if n == 0 {
        seq![0u64]
    } else {
        let fewer = (n - 1) as nat;
        let before = values_recorded(profile_start(), values, sums, fewer)->Ok_0;
        let partial = law_profile_adds_every_number(plus, values, sums, fewer, before);
        match values[n - 1] {
            ProfileInput::Number { bits, .. } => {
                law_finite_values_are_numbers(bits);
                if is_number_bits(bits) {
                    let numbers = numbers_in(values, fewer);
                    let more = partial.push(sums[n - 1]);
                    assert(plus.ensures((before.numeric_sum, bits), sums[n - 1]));
                    assert forall|k: int| 0 <= k < numbers.len() + 1 implies plus.ensures(
                        (more[k], #[trigger] numbers.push(bits)[k]),
                        more[k + 1],
                    ) by {
                        if k < numbers.len() {
                            assert(numbers[k] == numbers.push(bits)[k]);
                        }
                    }
                    more
                } else {
                    partial
                }
            },
            _ => partial,
        }
    }
}

/// How many characters the texts among the first `n` values have together.
pub open spec fn characters_met(values: Seq<ProfileInput>, n: nat) -> nat
    decreases n,
{
    if n == 0 {
        0
    } else {
        characters_met(values, (n - 1) as nat) + match values[n - 1] {
            ProfileInput::Text(text) => text.len(),
            _ => 0,
        }
    }
}

/// The lengths from which the mean length of a profile is taken are those of all texts that
/// were met, and it is taken over the values that are not missing.
pub proof fn law_profile_adds_every_length(
    values: Seq<ProfileInput>,
    sums: Seq<u64>,
    n: nat,
    state: ProfileState,
)
    requires
        n <= values.len(),
        n < u64::MAX,
        values_recorded(profile_start(), values, sums, n) == Ok::<ProfileState, ProfileFault>(state),
    ensures
        characters_met(values, n) <= u64::MAX ==> state.length_sum == characters_met(values, n),
        characters_met(values, n) > u64::MAX ==> state.length_sum == u64::MAX,
        nulls_met(values, n) < n ==> present_count(state) == n - nulls_met(values, n),
    decreases n,
{
    law_profile_counts_what_is_there(values, sums, n, state);
    if n > 0 {
        let fewer = (n - 1) as nat;
        let before = values_recorded(profile_start(), values, sums, fewer)->Ok_0;
        law_profile_adds_every_length(values, sums, fewer, before);
    }
}

/// Among the most frequent values none comes before a more frequent one, none that is left
/// out is more frequent than one that is listed, and of equally frequent ones the first in
/// the order of texts comes first.
pub proof fn law_most_frequent_values_come_first(
    listed: Seq<(Seq<char>, u64)>,
    entries: Seq<(Seq<char>, u64)>,
    limit: nat,
    i: int,
    j: int,
    k: int,
)
    requires
        most_frequent(listed, entries, limit),
        0 <= i < j < listed.len(),
        0 <= k < entries.len(),
    ensures
        listed[i].1 >= listed[j].1,
        listed[i].1 == listed[j].1 ==> text_before(listed[i].0, listed[j].0),
        listed.contains(entries[k]) || entries[k].1 <= listed[j].1,
        !listed.contains(entries[k]) && entries[k].1 == listed[j].1 ==> text_before(
            listed[j].0,
            entries[k].0,
        ),
        listed.len() < limit ==> listed.len() == entries.len(),
        listed.len() <= limit,
{
    assert(listed_before(listed[i], listed[j]));
    if !listed.contains(entries[k]) {
        assert(listed_before(listed[j], entries[k]));
    }
}

/// The distribution of a column is drawn from the numbers that were met, one by one; values
/// that are no numbers are passed over.
pub proof fn law_distribution_is_of_the_numbers(
    input: ChartInput,
    values: Seq<ProfileInput>,
    i: int,
)
    requires
        charts_numbers(input, values),
        0 <= i < values.len(),
    ensures
        input.row_count() == values.len(),
        input.charted(i) == match values[i] {
            ProfileInput::Number { bits, .. } => if is_number_bits(bits) {
                Some(RawModel::Histogram(bits))
            } else {
                None
            },
            _ => None,
        },
{
    if let ProfileInput::Number { bits, .. } = values[i] {
        law_finite_values_are_numbers(bits);
    }
}

/// A profile stops only where a text is too long, or where there are more distinct texts, or
/// more bytes of them, than it may hold; a text that occurred before is never too many.
pub proof fn law_profile_stops_only_at_its_bounds(
    entries: Seq<(Seq<char>, u64)>,
    bytes: nat,
    value: Seq<char>,
)
    requires
        in_order(entries),
        entries.len() <= MAX_DISTINCT_VALUES,
    ensures
        distinct_recorded(entries, bytes, value) is Err <==> {
            ||| byte_len(value) > MAX_PROFILE_VALUE_BYTES
            ||| {
                &&& forall|i: int| 0 <= i < entries.len() ==> (#[trigger] entries[i]).0 != value
                &&& entries.len() + 1 > MAX_DISTINCT_VALUES || bytes + byte_len(value)
                    > MAX_DISTINCT_BYTES
            }
        },
        distinct_recorded(entries, bytes, value) matches Ok((next, after)) ==> next.len()
            <= MAX_DISTINCT_VALUES && (next.len() == entries.len() ==> after == bytes) && (
        next.len() != entries.len() ==> next.len() == entries.len() + 1 && after == bytes
            + byte_len(value)),
{
    lemma_place_of_occurred(entries, value);
}

} // verus!
