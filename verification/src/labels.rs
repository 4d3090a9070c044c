//! What the user interface writes: numbers, headings and status lines.

use crate::chart::ChartModel;
use crate::export::ExportFormat;
use crate::metadata::{ColumnStatistics, RowGroupInfo};
use crate::page::smaller;
use crate::results::{row_sum, QueryKind};
use crate::session::QueryHistoryEntry;
use crate::sort::{SortDirection, SortSpec};
use crate::table::texts;
use crate::text::{
    cat, cat3, cat5, chars_of, decimal, decimal_text, lemma_decimal_digits, occurs_at, same_text,
    stands_at, trim, trimmed,
};
use vstd::prelude::*;
use vstd::string::StringExecFns;

verus! {

/// How many rows a table can show: all, unless they are too many to count.
pub fn ui_row_count(rows: u64) -> (count: usize)
    ensures
        count == smaller(rows as int, usize::MAX as int),
{
    if rows > usize::MAX as u64 {
        usize::MAX
    } else {
        rows as usize
    }
}

// ---------------------------------------------------------------------------
// Numbers
// ---------------------------------------------------------------------------

/// The first `count` digits, with a comma before each group of three that ends
/// the number.
pub open spec fn grouped(digits: Seq<char>, count: nat) -> Seq<char>
    decreases count,
{
    if count == 0 {
        Seq::empty()
    } else {
        let before = grouped(digits, (count - 1) as nat);
        let at = count - 1;
        if at > 0 && (digits.len() - at) % 3 == 0 {
            before.push(',').push(digits[at])
        } else {
            before.push(digits[at])
        }
    }
}

/// A number with commas between groups of three digits.
pub fn number(value: u64) -> (text: String)
    ensures
        text@ == grouped(decimal(value as nat), decimal(value as nat).len()),
{
    let digits = chars_of(decimal_text(value).as_str());
    let mut text = String::new();
    let mut i: usize = 0;
    assert(text@ =~= grouped(digits@, 0));
    while i < digits.len()
        invariant
            i <= digits@.len(),
            text@ == grouped(digits@, i as nat),
        decreases digits@.len() - i,
    {
        if i > 0 && (digits.len() - i) % 3 == 0 {
            text.push(',');
        }
        text.push(digits[i]);
        i = i + 1;
    }
    text
}

/// The unit in which a size is shown.
#[derive(Clone, Copy, Debug, PartialEq, Eq, Structural)]
pub enum ByteUnit {
    Bytes,
    Kilobytes,
    Megabytes,
    Gigabytes,
}

impl ByteUnit {
    /// How many bytes the unit has.
    pub open spec fn size(self) -> nat {
        match self {
            ByteUnit::Bytes => 1,
            ByteUnit::Kilobytes => 1_000,
            ByteUnit::Megabytes => 1_000_000,
            ByteUnit::Gigabytes => 1_000_000_000,
        }
    }
}

/// The greatest unit of which there is at least one.
pub fn byte_unit(bytes: u64) -> (unit: ByteUnit)
    ensures
        bytes >= 1_000_000_000 ==> unit == ByteUnit::Gigabytes,
        bytes < 1_000_000_000 && bytes >= 1_000_000 ==> unit == ByteUnit::Megabytes,
        bytes < 1_000_000 && bytes >= 1_000 ==> unit == ByteUnit::Kilobytes,
        bytes < 1_000 ==> unit == ByteUnit::Bytes,
{
    if bytes >= 1_000_000_000 {
        ByteUnit::Gigabytes
    } else if bytes >= 1_000_000 {
        ByteUnit::Megabytes
    } else if bytes >= 1_000 {
        ByteUnit::Kilobytes
    } else {
        ByteUnit::Bytes
    }
}

// ---------------------------------------------------------------------------
// Activity and status
// ---------------------------------------------------------------------------

/// What is under way.
#[derive(Clone, Copy, Debug, PartialEq, Eq, Structural)]
pub struct Activity {
    pub opening: bool,
    pub exporting: bool,
    pub charting: bool,
    pub profiling: bool,
    pub running_sql: bool,
    pub loading_pages: bool,
}

impl Activity {
    /// The most important thing that is under way.
    pub open spec fn label_text(self) -> Option<Seq<char>> {
        if self.opening {
            Some("Opening"@)
        } else if self.exporting {
            Some("Exporting"@)
        } else if self.charting {
            Some("Building chart"@)
        } else if self.profiling {
            Some("Profiling"@)
        } else if self.running_sql {
            Some("Running SQL"@)
        } else if self.loading_pages {
            Some("Loading pages"@)
        } else {
            None
        }
    }

    /// The most important thing that is under way.
    pub fn label(self) -> (label: Option<&'static str>)
        ensures
            match label {
                Some(label) => self.label_text() == Some(label@),
                None => self.label_text() is None,
            },
    {
        if self.opening {
            Some("Opening")
        } else if self.exporting {
            Some("Exporting")
        } else if self.charting {
            Some("Building chart")
        } else if self.profiling {
            Some("Profiling")
        } else if self.running_sql {
            Some("Running SQL")
        } else if self.loading_pages {
            Some("Loading pages")
        } else {
            None
        }
    }
}

/// What the status bar shows.
#[derive(Debug)]
pub struct StatusBar<'a> {
    pub status: &'a str,
    pub activity: Option<&'static str>,
    pub has_error: bool,
    pub selection: Option<(u64, usize)>,
    pub cached_pages: usize,
    pub columns: Option<usize>,
    pub rows: u64,
    pub path: Option<&'a str>,
}

/// The text of the status bar: what was loaded, where all that is to be said is
/// that it was.
pub open spec fn status_text(status: Seq<char>, path: Option<Seq<char>>) -> Seq<char> {
    if occurs_at(status, "Ready:"@, 0) && path is Some {
        "Loaded "@ + path->0
    } else {
        status
    }
}

impl<'a> StatusBar<'a> {
    /// What the light of the bar stands for.
    pub fn state(&self) -> (state: &'static str)
        ensures
            state@ == match self.activity {
                Some(activity) => activity@,
                None => if self.has_error {
                    "Error"@
                } else {
                    "Ready"@
                },
            },
    {
        match self.activity {
            Some(activity) => activity,
            None => if self.has_error {
                "Error"
            } else {
                "Ready"
            },
        }
    }

    pub fn message(&self) -> (message: String)
        ensures
            message@ == status_text(
                self.status@,
                match self.path {
                    Some(path) => Some(path@),
                    None => None,
                },
            ),
    {
        let chars = chars_of(self.status);
        let ready = chars_of("Ready:");
        if chars.len() >= ready.len() && stands_at(&chars, &ready, 0) {
            if let Some(path) = self.path {
                return cat("Loaded ", path);
            }
        }
        self.status.to_owned()
    }

    /// The size of what is shown, where there is a dataset.
    pub fn size(&self) -> (size: Option<String>)
        ensures
            match self.columns {
                Some(columns) => size matches Some(text) && text@ == grouped(
                    decimal(self.rows as nat),
                    decimal(self.rows as nat).len(),
                ) + " rows × "@ + decimal(columns as nat) + " columns"@,
                None => size is None,
            },
    {
        match self.columns {
            Some(columns) => {
                let head = cat3(
                    number(self.rows).as_str(),
                    " rows × ",
                    decimal_text(columns as u64).as_str(),
                );
                Some(cat(head.as_str(), " columns"))
            },
            None => None,
        }
    }
}

/// What the user is told once a dataset is open.
pub open spec fn opened_text(rows: nat, columns: nat) -> Seq<char> {
    if rows == 0 {
        "Opened empty dataset"@
    } else {
        "Ready: "@ + decimal(rows) + " rows × "@ + decimal(columns) + " columns"@
    }
}

/// What the user is told once a dataset is open.
pub fn opened_status(rows: u64, columns: usize) -> (status: String)
    ensures
        status@ == opened_text(rows as nat, columns as nat),
{
    if rows == 0 {
        "Opened empty dataset".to_owned()
    } else {
        cat5(
            "Ready: ",
            decimal_text(rows).as_str(),
            " rows × ",
            decimal_text(columns as u64).as_str(),
            " columns",
        )
    }
}

// ---------------------------------------------------------------------------
// Sorting
// ---------------------------------------------------------------------------

/// The arrow of a direction.
pub open spec fn arrow(direction: SortDirection) -> Seq<char> {
    match direction {
        SortDirection::Ascending => "↑"@,
        SortDirection::Descending => "↓"@,
    }
}

fn arrow_text(direction: SortDirection) -> (text: &'static str)
    ensures
        text@ == arrow(direction),
{
    match direction {
        SortDirection::Ascending => "↑",
        SortDirection::Descending => "↓",
    }
}

/// The heading of a column: its name, with an arrow where the rows are sorted by
/// it.
pub fn sort_heading(sort: Option<SortSpec>, column: usize, name: &str) -> (heading: String)
    ensures
        heading@ == (if sort is Some && sort->0.column == column {
            name@ + " "@ + arrow(sort->0.direction)
        } else {
            name@
        }),
{
    match sort {
        Some(sort) => if sort.column == column {
            cat3(name, " ", arrow_text(sort.direction))
        } else {
            name.to_owned()
        },
        None => name.to_owned(),
    }
}

/// What the user is told when rows are being sorted.
pub fn sorting_status(name: &str, direction: SortDirection) -> (status: String)
    ensures
        status@ == "Sorting "@ + name@ + " "@ + arrow(direction) + " (nulls last)"@,
{
    cat5("Sorting ", name, " ", arrow_text(direction), " (nulls last)")
}

/// Which rows of a result are shown.
pub open spec fn window_text(kind: QueryKind, first_result: u64, rows: u64) -> Seq<char> {
    kind.label_text() + " rows "@ + decimal((first_result + 1) as nat) + "–"@ + decimal(
        (first_result + rows) as nat,
    ) + " (bounded window)"@
}

/// Which rows of a result are shown.
pub fn window_label(kind: QueryKind, first_result: u64, rows: u64) -> (label: String)
    requires
        first_result < u64::MAX,
        first_result + rows <= u64::MAX,
    ensures
        label@ == window_text(kind, first_result, rows),
{
    let head = cat5(
        kind.label(),
        " rows ",
        decimal_text(first_result + 1).as_str(),
        "–",
        decimal_text(first_result + rows).as_str(),
    );
    cat(head.as_str(), " (bounded window)")
}

// ---------------------------------------------------------------------------
// Charts
// ---------------------------------------------------------------------------

/// What the user is told of a chart that is ready.
pub open spec fn chart_text(model: ChartModel, source: Seq<char>) -> Seq<char> {
    model.kind.label_text() + " chart: "@ + decimal(model.input_rows as nat) + " values from "@
        + source + (if model.input_capped {
        " (input capped at 16384)"@
    } else {
        ""@
    }) + (if model.reduced {
        " (reduced to "@ + decimal(model.output_count()) + " points)"@
    } else {
        ""@
    }) + if model.skipped_rows > 0 {
        " ("@ + decimal(model.skipped_rows as nat) + " null/non-finite skipped)"@
    } else {
        ""@
    }
}

/// What the user is told of a chart that is ready.
pub fn chart_status(model: &ChartModel, source: &str) -> (status: String)
    ensures
        status@ == chart_text(*model, source@),
{
    let mut status = cat5(
        model.kind.label(),
        " chart: ",
        decimal_text(model.input_rows as u64).as_str(),
        " values from ",
        source,
    );
    status.append(
        if model.input_capped {
            " (input capped at 16384)"
        } else {
            ""
        },
    );
    let reduced = if model.reduced {
        cat3(" (reduced to ", decimal_text(model.output_len() as u64).as_str(), " points)")
    } else {
        "".to_owned()
    };
    status.append(reduced.as_str());
    let skipped = if model.skipped_rows > 0 {
        cat3(
            " (",
            decimal_text(model.skipped_rows as u64).as_str(),
            " null/non-finite skipped)",
        )
    } else {
        "".to_owned()
    };
    status.append(skipped.as_str());
    status
}

/// What stands above a chart: that it is empty, or that it shows less than there
/// is.
pub fn chart_notice(model: &ChartModel) -> (notice: Option<String>)
    ensures
        if chart_is_empty(*model) {
            notice matches Some(text) && text@ == "No chartable non-null values were returned."@
        } else if model.input_capped || model.reduced {
            notice matches Some(text) && text@ == notice_text(*model)
        } else {
            notice is None
        },
{
    if model.is_empty() {
        return Some("No chartable non-null values were returned.".to_owned());
    }
    if model.input_capped || model.reduced {
        let mut text = cat5(
            "Showing ",
            decimal_text(model.output_len() as u64).as_str(),
            " chart values from ",
            decimal_text(model.input_rows as u64).as_str(),
            " bounded input rows",
        );
        text.append(
            if model.input_capped {
                "; query sampling stopped at 16384"
            } else {
                ""
            },
        );
        text.append(".");
        return Some(text);
    }
    None
}

/// Whether there is nothing to draw.
pub open spec fn chart_is_empty(model: ChartModel) -> bool {
    match model.values {
        crate::chart::ChartValues::Points(values) => values@.len() == 0,
        crate::chart::ChartValues::Bars(values) => values@.len() == 0,
        crate::chart::ChartValues::Histogram(values) => crate::chart::all_empty(values@),
    }
}

/// How much of the values a chart shows.
pub open spec fn notice_text(model: ChartModel) -> Seq<char> {
    "Showing "@ + decimal(model.output_count()) + " chart values from "@ + decimal(
        model.input_rows as nat,
    ) + " bounded input rows"@ + (if model.input_capped {
        "; query sampling stopped at 16384"@
    } else {
        ""@
    }) + "."@
}

/// The title of a chart: the one that was given, or its kind.
pub fn chart_title(model: &ChartModel, title: &str) -> (text: String)
    ensures
        text@ == (if trimmed(title@).len() == 0 {
            model.kind.label_text() + " chart"@
        } else {
            title@
        }),
{
    if chars_of(trim(title).as_str()).len() == 0 {
        cat(model.kind.label(), " chart")
    } else {
        title.to_owned()
    }
}

// ---------------------------------------------------------------------------
// History, statistics and row groups
// ---------------------------------------------------------------------------

/// How a query went.
pub open spec fn history_text(entry: QueryHistoryEntry) -> Seq<char> {
    (if entry.success {
        "ok"@
    } else {
        "failed"@
    }) + " · "@ + decimal(entry.duration_ms as nat) + " ms"@ + match entry.row_count {
        Some(rows) => " · "@ + decimal(rows as nat) + " rows"@,
        None => ""@,
    }
}

/// How a query went.
pub fn history_label(entry: &QueryHistoryEntry) -> (label: String)
    ensures
        label@ == history_text(*entry),
{
    let result = if entry.success {
        "ok"
    } else {
        "failed"
    };
    let rows = match entry.row_count {
        Some(rows) => cat3(" · ", decimal_text(rows).as_str(), " rows"),
        None => "".to_owned(),
    };
    cat5(result, " · ", decimal_text(entry.duration_ms).as_str(), " ms", rows.as_str())
}

/// A bound that a row group records.
pub open spec fn bound_text(bound: Option<String>) -> Seq<char> {
    match bound {
        Some(text) => text@,
        None => "unavailable"@,
    }
}

/// A count that a row group records.
pub open spec fn count_text(count: Option<u64>) -> Seq<char> {
    match count {
        Some(count) => decimal(count as nat),
        None => "unavailable"@,
    }
}

/// What a row group records of a column.
pub open spec fn statistics_text(group: nat, statistics: Option<ColumnStatistics>) -> Seq<char> {
    match statistics {
        Some(known) => "Group "@ + decimal(group) + ": min "@ + bound_text(known.min) + " · max "@
            + bound_text(known.max) + "\nnulls: "@ + count_text(known.null_count)
            + " · distinct: "@ + count_text(known.distinct_count),
        None => "Group "@ + decimal(group) + ": statistics unavailable"@,
    }
}

fn bound_label(bound: &Option<String>) -> (text: String)
    ensures
        text@ == bound_text(*bound),
{
    match bound {
        Some(text) => text.as_str().to_owned(),
        None => "unavailable".to_owned(),
    }
}

fn count_label(count: Option<u64>) -> (text: String)
    ensures
        text@ == count_text(count),
{
    match count {
        Some(count) => decimal_text(count),
        None => "unavailable".to_owned(),
    }
}

/// What a row group records of a column.
pub fn statistics_label(group: usize, statistics: &Option<ColumnStatistics>) -> (label: String)
    ensures
        label@ == statistics_text(group as nat, *statistics),
{
    match statistics {
        Some(known) => {
            let mut label = cat5(
                "Group ",
                decimal_text(group as u64).as_str(),
                ": min ",
                bound_label(&known.min).as_str(),
                " · max ",
            );
            label.append(bound_label(&known.max).as_str());
            label.append("\nnulls: ");
            label.append(count_label(known.null_count).as_str());
            label.append(" · distinct: ");
            label.append(count_label(known.distinct_count).as_str());
            label
        },
        None => cat3("Group ", decimal_text(group as u64).as_str(), ": statistics unavailable"),
    }
}

/// The rows of a row group, counted from 1.
pub open spec fn group_text(group: RowGroupInfo) -> Seq<char> {
    decimal(group.index as nat) + ": rows "@ + decimal((group.first_row + 1) as nat) + "–"@
        + decimal(row_sum(group.first_row as int, group.row_count as int) as nat) + " ("@
        + decimal(group.row_count as nat) + ")"@
}

/// The rows of a row group, counted from 1.
pub fn group_label(group: &RowGroupInfo) -> (label: String)
    requires
        group.first_row < u64::MAX,
    ensures
        label@ == group_text(*group),
{
    let last: u64 = group.first_row.saturating_add(group.row_count);
    let mut label = cat5(
        decimal_text(group.index as u64).as_str(),
        ": rows ",
        decimal_text(group.first_row + 1).as_str(),
        "–",
        decimal_text(last).as_str(),
    );
    label.append(" (");
    label.append(decimal_text(group.row_count).as_str());
    label.append(")");
    label
}

/// The name under which an export of a dataset is suggested to be saved. `stem`
/// is the name of its file without the extension.
pub fn suggested_name(stem: Option<&str>, format: ExportFormat) -> (name: String)
    ensures
        name@ == (match stem {
            Some(stem) => stem@ + "-export"@,
            None => "pavi-export"@,
        }) + "."@ + format.extension_text(),
{
    let base = match stem {
        Some(stem) => cat(stem, "-export"),
        None => "pavi-export".to_owned(),
    };
    cat3(base.as_str(), ".", format.extension())
}

/// How many rows of a table its headings take when they move with the rows.
pub fn header_rows(freeze_header: bool, show_column_types: bool) -> (rows: usize)
    ensures
        rows == (if freeze_header {
            0
        } else if show_column_types {
            2
        } else {
            1int
        }),
{
    if freeze_header {
        0
    } else if show_column_types {
        2
    } else {
        1
    }
}

// ---------------------------------------------------------------------------
// Laws
// ---------------------------------------------------------------------------

/// `s` without its commas.
pub open spec fn without_commas(s: Seq<char>) -> Seq<char>
    decreases s.len(),
{
    if s.len() == 0 {
        Seq::empty()
    } else if s.last() == ',' {
        without_commas(s.drop_last())
    } else {
        without_commas(s.drop_last()).push(s.last())
    }
}

proof fn lemma_grouped_digits(digits: Seq<char>, count: nat)
    requires
        count <= digits.len(),
        forall|i: int| 0 <= i < digits.len() ==> #[trigger] digits[i] != ',',
    ensures
        without_commas(grouped(digits, count)) == digits.take(count as int),
    decreases count,
{
    reveal_with_fuel(without_commas, 3);
    if count == 0 {
        assert(digits.take(0) =~= Seq::<char>::empty());
    } else {
        let at = count - 1;
        let before = grouped(digits, (count - 1) as nat);
        lemma_grouped_digits(digits, (count - 1) as nat);
        assert(digits[at] != ',');
        assert(digits.take(count as int) =~= digits.take(at).push(digits[at]));
        if at > 0 && (digits.len() - at) % 3 == 0 {
            let comma = before.push(',');
            assert(comma.drop_last() =~= before);
            assert(comma.push(digits[at]).drop_last() =~= comma);
        } else {
            assert(before.push(digits[at]).drop_last() =~= before);
        }
    }
}

/// The digits of a number are all there, in order, between the commas.
pub proof fn law_grouping_keeps_digits(value: nat)
    ensures
        without_commas(grouped(decimal(value), decimal(value).len())) == decimal(value),
{
    lemma_decimal_no_commas(value);
    lemma_grouped_digits(decimal(value), decimal(value).len());
    assert(decimal(value).take(decimal(value).len() as int) =~= decimal(value));
}

proof fn lemma_decimal_no_commas(n: nat)
    ensures
        forall|i: int| 0 <= i < decimal(n).len() ==> #[trigger] decimal(n)[i] != ',',
    decreases n,
{
    if n >= 10 {
        lemma_decimal_no_commas(n / 10);
        let init = decimal(n / 10);
        assert forall|i: int| 0 <= i < decimal(n).len() implies #[trigger] decimal(n)[i] != ',' by {
            if i < init.len() {
                assert(init[i] != ',');
            }
        }
    }
}

/// Names, each where it comes first.
pub open spec fn named_once(names: Seq<Seq<char>>) -> Seq<Seq<char>>
    decreases names.len(),
{
    if names.len() == 0 {
        Seq::empty()
    } else {
        let before = named_once(names.drop_last());
        if before.contains(names.last()) {
            before
        } else {
            before.push(names.last())
        }
    }
}

/// Names with a comma between them.
pub open spec fn listed_names(names: Seq<Seq<char>>) -> Seq<char>
    decreases names.len(),
{
    if names.len() == 0 {
        Seq::empty()
    } else if names.len() == 1 {
        names[0]
    } else {
        listed_names(names.drop_last()) + ", "@ + names.last()
    }
}

/// Whether a name is among those.
fn is_named(names: &Vec<&String>, name: &String) -> (yes: bool)
    ensures
        yes == names@.map_values(|name: &String| name@).contains(name@),
{
    let ghost views = names@.map_values(|name: &String| name@);
    let mut i: usize = 0;
    while i < names.len()
        invariant
            i <= names@.len(),
            views == names@.map_values(|name: &String| name@),
            forall|k: int| 0 <= k < i ==> views[k] != name@,
        decreases names@.len() - i,
    {
        if same_text(names[i].as_str(), name.as_str()) {
            assert(views[i as int] == name@);
            return true;
        }
        i = i + 1;
    }
    false
}

/// How the parts of a file are compressed: the names of the methods, each once.
pub fn compression_label(names: &Vec<String>) -> (label: String)
    ensures
        label@ == listed_names(named_once(texts(names@))),
{
    let mut label = String::new();
    let mut once: Vec<&String> = Vec::new();
    let mut i: usize = 0;
    assert(texts(names@).take(0) =~= Seq::<Seq<char>>::empty());
    assert(once@.map_values(|name: &String| name@) =~= Seq::<Seq<char>>::empty());
    while i < names.len()
        invariant
            i <= names@.len(),
            once@.map_values(|name: &String| name@) == named_once(texts(names@).take(i as int)),
            label@ == listed_names(named_once(texts(names@).take(i as int))),
        decreases names@.len() - i,
    {
        let ghost before = once@.map_values(|name: &String| name@);
        let ghost next = texts(names@).take(i + 1);
        assert(next.drop_last() =~= texts(names@).take(i as int));
        assert(next.last() == names@[i as int]@);
        if !is_named(&once, &names[i]) {
            proof {
                let after = before.push(names@[i as int]@);
                assert(after.drop_last() =~= before);
                assert(listed_names(after) =~= if before.len() == 0 {
                    names@[i as int]@
                } else {
                    listed_names(before) + ", "@ + names@[i as int]@
                });
            }
            label = if once.len() == 0 {
                names[i].as_str().to_owned()
            } else {
                cat3(label.as_str(), ", ", names[i].as_str())
            };
            once.push(&names[i]);
            assert(once@.map_values(|name: &String| name@) =~= before.push(names@[i as int]@));
        }
        i = i + 1;
    }
    assert(texts(names@).take(i as int) =~= texts(names@));
    label
}

/// A comma stands at every fourth place counted from the end of a number, so that three
/// digits stand between any two, and behind the last one; it never comes first.
pub proof fn law_commas_part_groups_of_three(value: nat, i: int)
    requires
        0 <= i < grouped(decimal(value), decimal(value).len()).len(),
    ensures
        ({
            let text = grouped(decimal(value), decimal(value).len());
            &&& text[i] == ',' <==> (text.len() - i) % 4 == 0
            &&& text[0] != ','
        }),
{
    let digits = decimal(value);
    lemma_decimal_no_commas(value);
    lemma_decimal_digits(value);
    lemma_comma_places(digits, digits.len());
    let text = grouped(digits, digits.len());
    assert(text[i] == ',' <==> (text.len() - i + 0) % 4 == 0);
}

/// How many characters follow the first `count` digits.
spec fn chars_behind(len: nat, count: nat) -> int {
    let left = len - count;
    left + left / 3
}

proof fn lemma_comma_places(digits: Seq<char>, count: nat)
    requires
        0 < count <= digits.len(),
        forall|i: int| 0 <= i < digits.len() ==> #[trigger] digits[i] != ',',
    ensures
        grouped(digits, count).len() > 0,
        grouped(digits, count)[0] != ',',
        forall|i: int|
            0 <= i < grouped(digits, count).len() ==> ((#[trigger] grouped(digits, count)[i])
                == ',' <==> (grouped(digits, count).len() - i + chars_behind(digits.len(), count))
                % 4 == 0),
    decreases count,
{
    let text = grouped(digits, count);
    let at = count - 1;
    let behind = chars_behind(digits.len(), count);
    assert(digits[at] != ',');
    if count == 1 {
        assert(grouped(digits, 0) =~= Seq::<char>::empty());
        assert(text =~= seq![digits[0]]);
        assert((1 + behind) % 4 != 0);
    } else {
        let before = grouped(digits, at as nat);
        lemma_comma_places(digits, at as nat);
        let then = chars_behind(digits.len(), at as nat);
        assert forall|i: int| 0 <= i < text.len() implies ((#[trigger] text[i]) == ',' <==> (
        text.len() - i + behind) % 4 == 0) by {
            if i < before.len() {
                assert(text[i] == before[i]);
                assert(text.len() + behind == before.len() + then);
            } else if (digits.len() - at) % 3 == 0 {
                assert(then % 4 == 0);
                assert(behind == then - 2);
            } else {
                assert(then % 4 != 0);
                assert(behind == then - 1);
            }
        }
        assert(text[0] == before[0]);
    }
}

/// Of names that occur more than once the first occurrence stays; none is lost.
pub proof fn law_names_are_listed_once(names: Seq<Seq<char>>, name: Seq<char>)
    ensures
        named_once(names).no_duplicates(),
        named_once(names).contains(name) <==> names.contains(name),
        names.no_duplicates() ==> named_once(names) == names,
    decreases names.len(),
{
    let once = named_once(names);
    if names.len() > 0 {
        let init = names.drop_last();
        let before = named_once(init);
        law_names_are_listed_once(init, name);
        law_names_are_listed_once(init, names.last());
        if !before.contains(names.last()) {
            assert forall|i: int, j: int|
                0 <= i < once.len() && 0 <= j < once.len() && i != j implies once[i] != once[j] by {
                if i < before.len() && j < before.len() {
                    assert(before[i] != before[j]);
                } else if i < before.len() {
                    assert(before.contains(before[i]));
                } else {
                    assert(before.contains(before[j]));
                }
            }
        }
        if names.contains(name) {
            let i = choose|i: int| 0 <= i < names.len() && names[i] == name;
            if i < init.len() {
                assert(init[i] == name);
                assert(init.contains(name));
                let k = choose|k: int| 0 <= k < before.len() && before[k] == name;
                assert(once[k] == name);
            } else if !before.contains(name) {
                assert(once[before.len() as int] == name);
            }
        }
        if once.contains(name) {
            let k = choose|k: int| 0 <= k < once.len() && once[k] == name;
            if k < before.len() {
                assert(before[k] == name);
                assert(before.contains(name));
                let i = choose|i: int| 0 <= i < init.len() && init[i] == name;
                assert(names[i] == name);
            } else {
                assert(names[names.len() - 1] == name);
            }
        }
        if names.no_duplicates() {
            assert forall|i: int, j: int|
                0 <= i < init.len() && 0 <= j < init.len() && i != j implies init[i] != init[j] by {
                assert(names[i] != names[j]);
            }
            assert(before == init);
            if init.contains(names.last()) {
                let i = choose|i: int| 0 <= i < init.len() && init[i] == names.last();
                assert(names[i] != names[names.len() - 1]);
            }
            assert(once =~= names);
        }
    } else {
        assert(once =~= names);
    }
}

} // verus!
