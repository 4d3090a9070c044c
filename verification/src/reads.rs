//! Reading filtered, sorted and aggregated rows, batch by batch as they are
//! decoded.

use crate::accumulate::{AggregateError, FloatSum};
use crate::aggregate::{AggregateSpec, GroupBudget};
use crate::batch::{
    all_wide, batch_rows, batch_width, can_join, column_count, column_thinned, filter_rows, joined_from,
    lemma_selected_len, makes_batch, project_rows, row_count, rows_of, selected_rows, Batch,
    BatchError,
};
use crate::cells::{
    boolean_cells, input_of_batch, integer_keys, keys_of_batch, read_input, read_keys, text_cells,
};
use crate::collector::{collector_start, counts_added, rows_read, GroupCollector};
use crate::filter::{
    evaluation_fault, input_rows, named_column, row_matches, FilterError, FilterErrorModel,
    FilterExpr, FilterInput, FilterModel,
};
use crate::groups::{rows_outcome, GroupModel};
use crate::messages::{too_many_rows_message, too_many_rows_text};
use crate::metadata::DatasetMetadata;
use crate::nested::{batch_counted, can_count, columns_counted};
use crate::order::{key_count, keys_of_column, sort_keys, SortKeys};
use crate::projection::{position_in, projection_fault, Projection, ProjectionError};
use crate::scalar::{column_rows, Column, FloatCell};
use crate::schema::{Field, Schema};
use crate::sort::{SortBudget, SortSpec};
use crate::sorted::{
    can_reorder, charge_fits, in_pages, reordered, saturated, sorted_batches, sorts_by,
    source_within_budget, OverBudget, SortInput,
};
use crate::source::{
    aggregate_columns, aggregate_fault, aggregate_read_columns, filter_fault, sort_fault,
    ValidationError,
};
use crate::window::{plan_columns, points_at, with_missing, FilteredWindow, ReadColumns};
use vstd::prelude::*;

verus! {

/// Why a read fails.
#[derive(Debug)]
pub enum ReadError {
    Validation(ValidationError),
    Filter(FilterError),
    /// The dataset has more rows than may be sorted.
    TooManyRows(u64, usize),
    Projection(ProjectionError),
    OverBudget(OverBudget),
    Groups(AggregateError),
    /// The rows are not what was asked for.
    Rows,
    Batch(BatchError),
}

/// What is wrong with a read before any row is decoded.
pub enum ReadFault {
    Validation(ValidationError),
    Filter(FilterErrorModel),
    TooManyRows(u64, usize),
    Projection(ProjectionError),
    Groups(AggregateError),
}

impl ReadError {
    /// Whether the error reports this fault.
    pub open spec fn reports(self, fault: ReadFault) -> bool {
        match fault {
            ReadFault::Validation(error) => self == ReadError::Validation(error),
            ReadFault::Filter(error) => self matches ReadError::Filter(found) && found@ == error,
            ReadFault::TooManyRows(rows, max_rows) => self == ReadError::TooManyRows(
                rows,
                max_rows,
            ),
            ReadFault::Projection(error) => self == ReadError::Projection(error),
            ReadFault::Groups(error) => self == ReadError::Groups(error),
        }
    }
}

impl ReadError {
    /// The message that the user sees, over these columns. What is wrong with a batch,
    /// Arrow says itself.
    pub open spec fn message_text(self, fields: Seq<Field>) -> Option<Seq<char>> {
        match self {
            ReadError::Validation(error) => Some(error.message_text(fields)),
            ReadError::Filter(error) => Some(error.message_text()),
            ReadError::TooManyRows(rows, max_rows) => Some(
                too_many_rows_text(rows as nat, max_rows as nat),
            ),
            ReadError::Projection(error) => Some(error.message_text()),
            ReadError::OverBudget(error) => Some(error.message_text()),
            ReadError::Groups(error) => Some(error.message_text(Seq::empty())),
            ReadError::Rows => Some("decoded rows do not fit the columns that were read"@),
            ReadError::Batch(error) => error.message_text(),
        }
    }

    /// The message that the user sees, over the columns of a dataset.
    pub fn message(&self, schema: &Schema) -> (text: Option<String>)
        ensures
            match text {
                Some(text) => self.message_text(schema.fields@) == Some(text@),
                None => self.message_text(schema.fields@) is None,
            },
    {
        match self {
            ReadError::Validation(error) => Some(error.message(schema)),
            ReadError::Filter(error) => Some(error.message()),
            ReadError::TooManyRows(rows, max_rows) => Some(
                too_many_rows_message(*rows, *max_rows),
            ),
            ReadError::Projection(error) => Some(error.message()),
            ReadError::OverBudget(error) => Some(error.message()),
            ReadError::Groups(error) => {
                proof {
                    reveal_strlit("");
                    assert(""@ =~= Seq::<char>::empty());
                }
                Some(error.message(""))
            },
            ReadError::Rows => Some(
                "decoded rows do not fit the columns that were read".to_owned(),
            ),
            ReadError::Batch(error) => error.message(),
        }
    }
}

// ---------------------------------------------------------------------------
// The rows that pass
// ---------------------------------------------------------------------------

/// A filter, and where its column stands among the decoded ones.
#[derive(Debug)]
pub struct RowFilter {
    pub filter: FilterExpr,
    pub position: usize,
    pub type_text: String,
}

/// Which rows pass, given the values of the column of the filter.
pub open spec fn filter_mask(filter: FilterModel, cells: FilterInput) -> Seq<bool> {
    Seq::new(input_rows(cells), |row: int| row_matches(filter, cells, row))
}

/// The number of the column that a filter names.
pub open spec fn filter_column(filter: FilterModel, schema: Schema) -> usize {
    named_column(filter.column, schema.names())->Ok_0 as usize
}

/// The column of a filter, where there is one.
pub open spec fn filter_columns(filter: Option<FilterModel>, schema: Schema) -> Seq<usize> {
    match filter {
        Some(filter) => seq![filter_column(filter, schema)],
        None => Seq::empty(),
    }
}

impl RowFilter {
    /// Whether this applies a filter to the decoded columns.
    pub open spec fn applies(
        &self,
        filter: FilterModel,
        schema: Schema,
        decoded: Seq<usize>,
    ) -> bool {
        let column = filter_column(filter, schema);
        &&& self.filter@ == filter
        &&& self.position < decoded.len()
        &&& decoded[self.position as int] == column
        &&& self.type_text@ == schema.fields@[column as int].type_text@
    }

    /// The values of the column of the filter in a batch, where these are truth values or
    /// texts. Of numbers the filter reads how they compare with its own, which is a
    /// matter of floating-point values.
    pub fn cells(&self, batch: &Batch) -> (cells: Option<FilterInput>)
        ensures
            match cells {
                Some(cells) => self.position < batch_width(*batch) && input_of_batch(
                    cells,
                    *batch,
                    self.position as int,
                ) && input_rows(cells) == batch_rows(*batch).len(),
                None => self.position >= batch_width(*batch) || (boolean_cells(
                    *batch,
                    self.position as int,
                ) is None && text_cells(*batch, self.position as int) is None),
            },
    {
        if self.position < column_count(batch) {
            read_input(batch, self.position)
        } else {
            None
        }
    }

    /// The rows of a batch that pass; `cells` holds the values of the column of the
    /// filter.
    pub fn pass(&self, batch: &Batch, cells: &FilterInput) -> (result: Result<Batch, ReadError>)
        ensures
            match evaluation_fault(self.filter@, *cells, self.type_text@) {
                Some(fault) => result matches Err(error) && error.reports(ReadFault::Filter(fault)),
                None => match result {
                    Ok(kept) => {
                        &&& input_rows(*cells) == batch_rows(*batch).len()
                        &&& batch_counted(*batch)
                        &&& batch_rows(kept) == selected_rows(
                            batch_rows(*batch),
                            filter_mask(self.filter@, *cells),
                        )
                        &&& batch_width(kept) == batch_width(*batch)
                    },
                    Err(ReadError::Rows) => input_rows(*cells) != batch_rows(*batch).len(),
                    Err(ReadError::Batch(BatchError::TooLarge)) => input_rows(*cells)
                        == batch_rows(*batch).len() && !batch_counted(*batch),
                    Err(_) => false,
                },
            },
    {
        let mask = match self.filter.evaluate_batch(cells, self.type_text.as_str()) {
            Ok(mask) => mask,
            Err(error) => return Err(ReadError::Filter(error)),
        };
        assert(mask@ =~= filter_mask(self.filter@, *cells));
        if mask.len() != row_count(batch) {
            return Err(ReadError::Rows);
        }
        if !can_count(batch) {
            return Err(ReadError::Batch(BatchError::TooLarge));
        }
        match filter_rows(batch, &mask) {
            Ok(kept) => Ok(kept),
            Err(error) => Err(ReadError::Batch(BatchError::Refused(error))),
        }
    }
}

// ---------------------------------------------------------------------------
// A window of the rows that pass
// ---------------------------------------------------------------------------

/// Reads a window of the rows that pass a filter.
pub struct FilteredRead {
    pub filter: RowFilter,
    /// The columns to decode.
    pub projection: Projection,
    /// What was found so far.
    pub window: FilteredWindow,
}

/// What is wrong with a read of filtered rows.
pub open spec fn filtered_fault(
    dataset: DatasetMetadata,
    filter: FilterModel,
    projection: Seq<usize>,
) -> Option<ReadFault> {
    match named_column(filter.column, dataset.schema.names()) {
        Err(error) => Some(ReadFault::Filter(error)),
        Ok(column) => match projection_fault(
            with_missing(projection, seq![column as usize]),
            dataset.column_count as nat,
        ) {
            Some(error) => Some(ReadFault::Projection(error)),
            None => None,
        },
    }
}

impl FilteredRead {
    /// The rows that passed so far, with all decoded columns.
    pub open spec fn passed(&self) -> Seq<Seq<Seq<u8>>> {
        self.window.passed()
    }

    /// The number of the first wanted row among those that pass.
    pub open spec fn start(&self) -> int {
        self.window.start()
    }

    /// How many rows are wanted.
    pub open spec fn size(&self) -> int {
        self.window.size()
    }

    /// Where the returned columns stand among the decoded ones.
    pub open spec fn positions(&self) -> Seq<usize> {
        self.window.positions()
    }

    /// The batches that hold the wanted rows that were found.
    pub open spec fn kept(&self) -> Seq<Batch> {
        self.window.kept()
    }

    /// Whether some of the next `rows` rows that pass are wanted.
    pub open spec fn reached_by(&self, rows: nat) -> bool {
        self.window.reached_by(rows)
    }

    pub open spec fn wf(&self) -> bool {
        self.window.wf()
    }

    /// All rows that are wanted were found.
    pub open spec fn complete(&self) -> bool {
        crate::window::window_of(self.passed(), self.start(), self.size()).len() == self.size()
    }

    /// The wanted rows that were found, reduced to the returned columns.
    pub open spec fn found(&self) -> Seq<Seq<Seq<u8>>> {
        project_rows(
            crate::window::window_of(self.passed(), self.start(), self.size()),
            self.positions(),
        )
    }

    /// Whether a batch has the columns that are returned, its rows can be counted, and
    /// `cells` holds a value for each of them.
    pub open spec fn takes(&self, batch: Batch, cells: FilterInput) -> bool {
        &&& input_rows(cells) == batch_rows(batch).len()
        &&& self.passed().len() + batch_rows(batch).len() <= u64::MAX
        &&& forall|i: int|
            0 <= i < self.positions().len() ==> #[trigger] self.positions()[i] < batch_width(batch)
    }

    /// The rows of a batch that pass.
    pub open spec fn picked(&self, batch: Batch, cells: FilterInput) -> Seq<Seq<Seq<u8>>> {
        selected_rows(batch_rows(batch), filter_mask(self.filter.filter@, cells))
    }

    /// Takes in the next decoded rows, and says whether more are wanted. `cells`
    /// holds the values of the column of the filter.
    pub fn take(&mut self, batch: &Batch, cells: &FilterInput) -> (result: Result<bool, ReadError>)
        requires
            old(self).wf(),
            !old(self).complete(),
        ensures
            final(self).wf(),
            final(self).filter == old(self).filter,
            final(self).projection == old(self).projection,
            final(self).start() == old(self).start(),
            final(self).size() == old(self).size(),
            final(self).positions() == old(self).positions(),
            result is Err ==> final(self).passed() == old(self).passed() && final(self).kept()
                == old(self).kept(),
            match evaluation_fault(
                old(self).filter.filter@,
                *cells,
                old(self).filter.type_text@,
            ) {
                Some(fault) => result matches Err(error) && error.reports(ReadFault::Filter(fault)),
                None => match result {
                    Ok(more) => {
                        &&& old(self).takes(*batch, *cells)
                        &&& batch_counted(*batch)
                        &&& more == !final(self).complete()
                        &&& final(self).passed() == old(self).passed() + old(self).picked(
                            *batch,
                            *cells,
                        )
                        &&& if old(self).reached_by(old(self).picked(*batch, *cells).len()) {
                            final(self).kept().len() == old(self).kept().len() + 1
                                && final(self).kept().drop_last() == old(self).kept()
                        } else {
                            final(self).kept() == old(self).kept()
                        }
                    },
                    Err(ReadError::Rows) => !old(self).takes(*batch, *cells),
                    Err(ReadError::Batch(BatchError::TooLarge)) => old(self).takes(*batch, *cells)
                        && !batch_counted(*batch),
                    Err(ReadError::Batch(BatchError::Refused(_))) => {
                        &&& old(self).takes(*batch, *cells)
                        &&& batch_counted(*batch)
                        &&& old(self).reached_by(old(self).picked(*batch, *cells).len())
                        &&& old(self).picked(*batch, *cells).len() < batch_rows(*batch).len()
                            || !makes_batch(*batch, old(self).positions())
                        &&& old(self).positions().len() == 0 || exists|i: int|
                            0 <= i < old(self).positions().len() && !column_thinned(
                                *batch,
                                #[trigger] old(self).positions()[i] as int,
                                filter_mask(old(self).filter.filter@, *cells),
                            )
                    },
                    Err(_) => false,
                },
            },
    {
        let mask = match self.filter.filter.evaluate_batch(cells, self.filter.type_text.as_str()) {
            Ok(mask) => mask,
            Err(error) => return Err(ReadError::Filter(error)),
        };
        assert(mask@ =~= filter_mask(self.filter.filter@, *cells));
        if mask.len() != row_count(batch) || !self.window.can_take(batch) {
            proof {
                let positions = self.positions();
                if self.takes(*batch, *cells) {
                    assert forall|i: int| 0 <= i < positions.len() implies #[trigger] positions[i]
                        < batch_width(*batch) by {
                        assert(self.positions()[i] < batch_width(*batch));
                    }
                }
            }
            return Err(ReadError::Rows);
        }
        proof {
            lemma_selected_len(batch_rows(*batch), mask@);
        }
        match self.window.offer(batch, &mask) {
            Ok(_) => Ok(!self.window.is_full()),
            Err(error) => Err(ReadError::Batch(error)),
        }
    }

    /// The wanted rows as one batch; none where there is no such row. Rows that were
    /// found in one batch come back in any case.
    pub fn finish(self) -> (result: Result<Option<Batch>, BatchError>)
        requires
            self.wf(),
        ensures
            joined_from(result, self.kept()),
            result matches Ok(Some(batch)) ==> batch_rows(batch) == self.found() && batch_width(
                batch,
            ) == self.positions().len(),
            self.found().len() == 0 <==> result matches Ok(None),
    {
        self.window.finish()
    }
}

impl DatasetMetadata {
    /// Gets a read of at most `row_count` of the rows that pass a filter ready, from
    /// row `first_match` of those on; none where no row is wanted.
    pub fn plan_filtered(
        &self,
        filter: &FilterExpr,
        first_match: u64,
        row_count: usize,
        projection: &Projection,
    ) -> (result: Result<Option<FilteredRead>, ReadError>)
        ensures
            row_count == 0 ==> (result matches Ok(None)),
            row_count > 0 ==> match (filtered_fault(*self, filter@, projection@), result) {
                (Some(fault), result) => result matches Err(error) && error.reports(fault),
                (None, Ok(Some(read))) => {
                    &&& read.wf()
                    &&& read.passed().len() == 0
                    &&& read.kept().len() == 0
                    &&& read.start() == first_match
                    &&& read.size() == row_count
                    &&& read.projection@ == with_missing(
                        projection@,
                        seq![filter_column(filter@, self.schema)],
                    )
                    &&& points_at(read.positions(), read.projection@, projection@)
                    &&& read.filter.applies(filter@, self.schema, read.projection@)
                },
                _ => false,
            },
    {
        if row_count == 0 {
            return Ok(None);
        }
        let column: usize = match filter.column_index(&self.schema) {
            Ok(column) => column,
            Err(error) => return Err(ReadError::Filter(error)),
        };
        let mut extra: Vec<usize> = Vec::new();
        extra.push(column);
        assert(extra@ =~= seq![filter_column(filter@, self.schema)]);
        match plan_columns(projection, &extra, self.column_count) {
            Ok(columns) => {
                let row_filter = RowFilter {
                    filter: filter.copy(),
                    position: columns.extra_positions[0],
                    type_text: self.schema.fields[column].type_text.as_str().to_owned(),
                };
                Ok(
                    Some(
                        FilteredRead {
                            filter: row_filter,
                            projection: columns.projection,
                            window: FilteredWindow::new(
                                first_match,
                                row_count,
                                columns.output_positions,
                            ),
                        },
                    ),
                )
            },
            Err(error) => Err(ReadError::Projection(error)),
        }
    }
}

// ---------------------------------------------------------------------------
// Sorted rows
// ---------------------------------------------------------------------------

/// The rows that pass where there is a filter, and all rows where there is none.
pub open spec fn kept_rows(
    filter: Option<RowFilter>,
    rows: Seq<Seq<Seq<u8>>>,
    cells: Option<FilterInput>,
) -> Seq<Seq<Seq<u8>>> {
    match filter {
        Some(filter) => selected_rows(rows, filter_mask(filter.filter@, cells->0)),
        None => rows,
    }
}

/// What is wrong with applying a filter, where there is one.
pub open spec fn pass_fault(
    filter: Option<RowFilter>,
    cells: Option<FilterInput>,
) -> Option<FilterErrorModel> {
    match (filter, cells) {
        (Some(filter), Some(cells)) => evaluation_fault(
            filter.filter@,
            cells,
            filter.type_text@,
        ),
        _ => None,
    }
}

/// Whether the values of the column of the filter are there, one for each row.
pub open spec fn cells_match(
    filter: Option<RowFilter>,
    rows: nat,
    cells: Option<FilterInput>,
) -> bool {
    filter is None || (cells matches Some(cells) && input_rows(cells) == rows)
}

/// The cells that a reference leads to.
pub open spec fn held(cells: Option<&FilterInput>) -> Option<FilterInput> {
    match cells {
        Some(cells) => Some(*cells),
        None => None,
    }
}

/// The rows of a batch that pass where there is a filter, and all rows where there is
/// none. `cells` holds the values of the column of the filter.
pub fn passing(filter: &Option<RowFilter>, batch: Batch, cells: Option<&FilterInput>) -> (result:
    Result<Batch, ReadError>)
    ensures
        match pass_fault(*filter, held(cells)) {
            Some(fault) => result matches Err(error) && error.reports(ReadFault::Filter(fault)),
            None => match result {
                Ok(kept) => {
                    &&& cells_match(*filter, batch_rows(batch).len(), held(cells))
                    &&& *filter is Some ==> batch_counted(batch)
                    &&& batch_rows(kept) == kept_rows(*filter, batch_rows(batch), held(cells))
                    &&& batch_width(kept) == batch_width(batch)
                },
                Err(ReadError::Rows) => !cells_match(
                    *filter,
                    batch_rows(batch).len(),
                    held(cells),
                ),
                Err(ReadError::Batch(BatchError::TooLarge)) => *filter is Some && cells_match(
                    *filter,
                    batch_rows(batch).len(),
                    held(cells),
                ) && !batch_counted(batch),
                Err(_) => false,
            },
        },
{
    match filter {
        None => Ok(batch),
        Some(filter) => match cells {
            Some(cells) => filter.pass(&batch, cells),
            None => Err(ReadError::Rows),
        },
    }
}

/// Reads sorted rows.
pub struct SortedRead {
    pub filter: Option<RowFilter>,
    /// The columns to decode.
    pub columns: ReadColumns,
    pub sort: SortSpec,
    /// What was collected so far.
    pub input: SortInput,
}

/// All rows to sort.
pub struct JoinedRows {
    pub rows: Batch,
    /// Where the column stands that they are sorted by.
    pub key_position: usize,
    pub output_positions: Vec<usize>,
    pub sort: SortSpec,
}

/// The columns that a sort needs beside those that it returns.
pub open spec fn sort_columns(
    sort: SortSpec,
    filter: Option<FilterModel>,
    schema: Schema,
) -> Seq<usize> {
    seq![sort.column] + filter_columns(filter, schema)
}

/// What is wrong with a filter, where there is one.
pub open spec fn optional_filter_fault(filter: Option<FilterModel>, schema: Schema) -> Option<
    FilterErrorModel,
> {
    match filter {
        Some(filter) => filter_fault(filter, schema),
        None => None,
    }
}

/// What is wrong with a read of sorted rows.
pub open spec fn sorted_fault(
    dataset: DatasetMetadata,
    filter: Option<FilterModel>,
    projection: Seq<usize>,
    sort: SortSpec,
    budget: SortBudget,
) -> Option<ReadFault> {
    if let Some(error) = sort_fault(sort, dataset.schema.fields@) {
        Some(ReadFault::Validation(error))
    } else if let Some(error) = optional_filter_fault(filter, dataset.schema) {
        Some(ReadFault::Filter(error))
    } else if dataset.row_count > budget.rows_bound() {
        Some(ReadFault::TooManyRows(dataset.row_count, budget.rows_bound()))
    } else {
        match projection_fault(
            with_missing(projection, sort_columns(sort, filter, dataset.schema)),
            dataset.column_count as nat,
        ) {
            Some(error) => Some(ReadFault::Projection(error)),
            None => None,
        }
    }
}

/// What a filter says, where there is one.
pub open spec fn filter_model(filter: Option<&FilterExpr>) -> Option<FilterModel> {
    match filter {
        Some(filter) => Some(filter@),
        None => None,
    }
}

/// Whether a filter is applied, where there is one, to the decoded columns.
pub open spec fn filters_by(
    row_filter: Option<RowFilter>,
    filter: Option<FilterModel>,
    schema: Schema,
    decoded: Seq<usize>,
) -> bool {
    match filter {
        Some(filter) => row_filter matches Some(found) && found.applies(filter, schema, decoded),
        None => row_filter is None,
    }
}

impl SortedRead {
    /// The rows that were collected so far, with all decoded columns.
    pub open spec fn rows(&self) -> Seq<Seq<Seq<u8>>> {
        rows_of(self.input.collected())
    }

    pub open spec fn wf(&self) -> bool {
        let decoded = self.columns.projection@.len();
        &&& self.input.wf()
        &&& all_wide(self.input.collected(), decoded)
        &&& self.columns.extra_positions@.len() > 0
        &&& self.columns.extra_positions@[0] < decoded
        &&& forall|i: int|
            0 <= i < self.columns.output_positions@.len()
                ==> #[trigger] self.columns.output_positions@[i] < decoded
    }

    /// Only what was collected differs.
    pub open spec fn continues(&self, before: &Self) -> bool {
        &&& self.filter == before.filter
        &&& self.columns == before.columns
        &&& self.sort == before.sort
        &&& self.input.limit() == before.input.limit()
    }

    /// Whether `cells` holds a value of the column of the filter for each row of a
    /// batch, and the rows that pass, if any, have the columns that are decoded.
    pub open spec fn takes(&self, batch: Batch, cells: Option<FilterInput>) -> bool {
        cells_match(self.filter, batch_rows(batch).len(), cells) && (kept_rows(
            self.filter,
            batch_rows(batch),
            cells,
        ).len() == 0 || batch_width(batch) == self.columns.projection@.len())
    }

    /// Takes in the next decoded rows. `cells` holds the values of the column of the
    /// filter. For how many bytes they are charged is Arrow's estimate; they are taken in
    /// exactly where these are within the budget.
    pub fn take(&mut self, batch: Batch, cells: Option<&FilterInput>) -> (result: Result<
        (),
        ReadError,
    >)
        requires
            old(self).wf(),
        ensures
            final(self).wf(),
            final(self).continues(old(self)),
            result is Err ==> final(self).input.collected() == old(self).input.collected()
                && final(self).input.charged() == old(self).input.charged(),
            match pass_fault(old(self).filter, held(cells)) {
                Some(fault) => result matches Err(error) && error.reports(ReadFault::Filter(fault)),
                None => match result {
                    Ok(_) => {
                        &&& old(self).takes(batch, held(cells))
                        &&& old(self).filter is Some ==> batch_counted(batch)
                        &&& final(self).rows() == old(self).rows() + kept_rows(
                            old(self).filter,
                            batch_rows(batch),
                            held(cells),
                        )
                        &&& if kept_rows(
                            old(self).filter,
                            batch_rows(batch),
                            held(cells),
                        ).len() == 0 {
                            &&& final(self).input.collected() == old(self).input.collected()
                            &&& final(self).input.charged() == old(self).input.charged()
                        } else {
                            &&& final(self).input.collected().len() == old(
                                self,
                            ).input.collected().len() + 1
                            &&& final(self).input.collected().drop_last() == old(
                                self,
                            ).input.collected()
                            &&& exists|bytes: usize| #[trigger]
                                charge_fits(
                                    old(self).input.limit(),
                                    final(self).rows().len(),
                                    old(self).input.charged(),
                                    bytes,
                                ) && final(self).input.charged() == saturated(
                                    old(self).input.charged() + bytes,
                                )
                        }
                    },
                    Err(ReadError::Rows) => !old(self).takes(batch, held(cells)) && (
                    old(self).filter is Some && cells_match(
                        old(self).filter,
                        batch_rows(batch).len(),
                        held(cells),
                    ) ==> batch_counted(batch)),
                    Err(ReadError::Batch(BatchError::TooLarge)) => old(self).filter is Some
                        && cells_match(
                        old(self).filter,
                        batch_rows(batch).len(),
                        held(cells),
                    ) && !batch_counted(batch),
                    Err(ReadError::OverBudget(over)) => {
                        &&& old(self).takes(batch, held(cells))
                        &&& kept_rows(old(self).filter, batch_rows(batch), held(cells)).len() > 0
                        &&& over.max_rows == old(self).input.limit().rows_bound()
                        &&& over.max_bytes == old(self).input.limit().bytes_bound()
                        &&& exists|bytes: usize|
                            !#[trigger] charge_fits(
                                old(self).input.limit(),
                                old(self).rows().len() + kept_rows(
                                    old(self).filter,
                                    batch_rows(batch),
                                    held(cells),
                                ).len(),
                                old(self).input.charged(),
                                bytes,
                            )
                    },
                    Err(_) => false,
                },
            },
    {
        let ghost before = self.input.collected();
        let kept = match passing(&self.filter, batch, cells) {
            Ok(kept) => kept,
            Err(error) => return Err(error),
        };
        if row_count(&kept) == 0 {
            assert(self.rows() + batch_rows(kept) =~= self.rows());
            return Ok(());
        }
        if column_count(&kept) != self.columns.projection.as_slice().len() {
            return Err(ReadError::Rows);
        }
        let ghost more = kept;
        match self.input.push(kept) {
            Ok(_) => {
                proof {
                    assert(before.push(more).drop_last() =~= before);
                }
                Ok(())
            },
            Err(error) => Err(ReadError::OverBudget(error)),
        }
    }

    /// The collected rows as one batch; none where there are none.
    pub fn join(self) -> (result: Result<Option<JoinedRows>, ReadError>)
        requires
            self.wf(),
        ensures
            match result {
                Ok(Some(joined)) => {
                    &&& self.rows().len() > 0
                    &&& batch_rows(joined.rows) == self.rows()
                    &&& joined.key_position == self.columns.extra_positions@[0]
                    &&& joined.output_positions == self.columns.output_positions
                    &&& joined.sort == self.sort
                    &&& joined.wf()
                    &&& can_join(self.input.collected())
                },
                Ok(None) => self.rows().len() == 0,
                Err(ReadError::Batch(error)) => joined_from(
                    Err::<Option<Batch>, BatchError>(error),
                    self.input.collected(),
                ),
                Err(_) => false,
            },
    {
        proof {
            self.input.lemma_batches_hold_rows();
        }
        match self.input.finish() {
            Ok(Some(rows)) => Ok(
                Some(
                    JoinedRows {
                        rows,
                        key_position: self.columns.extra_positions[0],
                        output_positions: self.columns.output_positions,
                        sort: self.sort,
                    },
                ),
            ),
            Ok(None) => Ok(None),
            Err(error) => Err(ReadError::Batch(error)),
        }
    }
}

impl JoinedRows {
    pub open spec fn wf(&self) -> bool {
        &&& self.key_position < batch_width(self.rows)
        &&& forall|i: int|
            0 <= i < self.output_positions@.len() ==> #[trigger] self.output_positions@[i]
                < batch_width(self.rows)
    }

    /// Whether the rows come back like this when they are ordered by `keys`: cut into
    /// pages where Arrow takes them in that order.
    pub open spec fn comes_back(
        &self,
        result: Result<Vec<Batch>, ReadError>,
        keys: SortKeys,
        order: Seq<u32>,
    ) -> bool {
        &&& sorts_by(order, keys, self.sort)
        &&& match result {
            Ok(pages) => {
                &&& can_reorder(self.rows, self.output_positions@, order)
                &&& in_pages(pages@)
                &&& all_wide(pages@, self.output_positions@.len())
                &&& rows_of(pages@) == reordered(
                    project_rows(batch_rows(self.rows), self.output_positions@),
                    order,
                )
            },
            Err(ReadError::Batch(BatchError::TooLarge)) => makes_batch(
                self.rows,
                self.output_positions@,
            ) && !columns_counted(self.rows, self.output_positions@),
            Err(ReadError::Batch(BatchError::Refused(_))) => !can_reorder(
                self.rows,
                self.output_positions@,
                order,
            ) && (makes_batch(self.rows, self.output_positions@) ==> columns_counted(
                self.rows,
                self.output_positions@,
            )),
            Err(_) => false,
        }
    }

    fn ordered(&self, keys: &SortKeys) -> (result: Result<Vec<Batch>, ReadError>)
        requires
            self.wf(),
            key_count(*keys) == batch_rows(self.rows).len(),
            key_count(*keys) <= u32::MAX,
        ensures
            exists|order: Seq<u32>| #[trigger] self.comes_back(result, *keys, order),
    {
        match sorted_batches(&self.rows, keys, self.sort, &self.output_positions) {
            Ok(pages) => {
                let result: Result<Vec<Batch>, ReadError> = Ok(pages);
                proof {
                    let order = choose|order: Seq<u32>|
                        #[trigger] sorts_by(order, *keys, self.sort) && can_reorder(
                            self.rows,
                            self.output_positions@,
                            order,
                        ) && rows_of(pages@) == reordered(
                            project_rows(batch_rows(self.rows), self.output_positions@),
                            order,
                        );
                    assert(self.comes_back(result, *keys, order));
                }
                result
            },
            Err(error) => {
                let ghost given = error;
                let result: Result<Vec<Batch>, ReadError> = Err(ReadError::Batch(error));
                proof {
                    let order = choose|order: Seq<u32>|
                        #[trigger] sorts_by(order, *keys, self.sort) && (given is Refused
                            ==> !can_reorder(self.rows, self.output_positions@, order));
                    assert(self.comes_back(result, *keys, order));
                }
                result
            },
        }
    }

    /// The rows in the order of the column that they are sorted by, reduced to the
    /// returned columns and cut into pages. Nothing comes back where the column holds
    /// floating-point values, or values that have no order.
    pub fn sorted_by_key(&self) -> (result: Option<Result<Vec<Batch>, ReadError>>)
        requires
            self.wf(),
        ensures
            match result {
                Some(Err(ReadError::Rows)) => batch_rows(self.rows).len() > u32::MAX,
                Some(result) => exists|keys: SortKeys, order: Seq<u32>|
                    keys_of_batch(keys, self.rows, self.key_position as int)
                        && #[trigger] self.comes_back(result, keys, order),
                None => integer_keys(self.rows, self.key_position as int) is None && text_cells(
                    self.rows,
                    self.key_position as int,
                ) is None,
            },
    {
        let keys = match read_keys(&self.rows, self.key_position) {
            Some(keys) => keys,
            None => return None,
        };
        if row_count(&self.rows) > u32::MAX as usize {
            return Some(Err(ReadError::Rows));
        }
        Some(self.ordered(&keys))
    }

    /// The rows in order, reduced to the returned columns and cut into pages. `column`
    /// holds the values that they are sorted by.
    pub fn sorted(&self, column: &Column) -> (result: Result<Vec<Batch>, ReadError>)
        requires
            self.wf(),
        ensures
            if column_rows(*column) != batch_rows(self.rows).len() || column_rows(*column)
                > u32::MAX || *column is Other {
                result matches Err(error) && error is Rows
            } else {
                exists|keys: SortKeys, order: Seq<u32>|
                    keys_of_column(keys, *column) && #[trigger] self.comes_back(
                        result,
                        keys,
                        order,
                    )
            },
    {
        let rows: usize = row_count(&self.rows);
        if column.len() != rows || rows > u32::MAX as usize {
            return Err(ReadError::Rows);
        }
        match sort_keys(column) {
            Some(keys) => self.ordered(&keys),
            None => Err(ReadError::Rows),
        }
    }
}

impl DatasetMetadata {
    /// The column of a filter that fits the dataset, where there is a filter.
    fn filtered_column(&self, filter: Option<&FilterExpr>) -> (result: Result<
        Option<usize>,
        FilterError,
    >)
        ensures
            match result {
                Ok(column) => optional_filter_fault(filter_model(filter), self.schema) is None
                    && match filter {
                    Some(filter) => column == Some(filter_column(filter@, self.schema)) && column->0
                        < self.schema.fields@.len(),
                    None => column is None,
                },
                Err(error) => optional_filter_fault(filter_model(filter), self.schema) == Some(
                    error@,
                ),
            },
    {
        match filter {
            None => Ok(None),
            Some(filter) => {
                if let Err(error) = self.validate_filter(filter) {
                    return Err(error);
                }
                match filter.column_index(&self.schema) {
                    Ok(column) => Ok(Some(column)),
                    Err(error) => Err(error),
                }
            },
        }
    }

    fn row_filter(
        &self,
        filter: Option<&FilterExpr>,
        column: Option<usize>,
        position: usize,
    ) -> (row_filter: Option<RowFilter>)
        requires
            filter is Some <==> column is Some,
            column matches Some(column) ==> column < self.schema.fields@.len() && column
                == filter_column(filter->0@, self.schema),
        ensures
            match filter {
                Some(filter) => row_filter matches Some(found) && found.filter@ == filter@
                    && found.position == position && found.type_text@
                    == self.schema.fields@[column->0 as int].type_text@,
                None => row_filter is None,
            },
    {
        match (filter, column) {
            (Some(filter), Some(column)) => Some(
                RowFilter {
                    filter: filter.copy(),
                    position,
                    type_text: self.schema.fields[column].type_text.as_str().to_owned(),
                },
            ),
            _ => None,
        }
    }

    /// Gets a read of sorted rows ready. It is refused where the dataset has more rows
    /// than the budget allows.
    pub fn plan_sorted(
        &self,
        filter: Option<&FilterExpr>,
        projection: &Projection,
        sort: SortSpec,
        budget: SortBudget,
    ) -> (result: Result<SortedRead, ReadError>)
        ensures
            match sorted_fault(*self, filter_model(filter), projection@, sort, budget) {
                Some(fault) => result matches Err(error) && error.reports(fault),
                None => {
                    &&& result matches Ok(read)
                    &&& read.wf()
                    &&& read.rows().len() == 0
                    &&& read.input.collected().len() == 0
                    &&& read.input.charged() == 0
                    &&& read.sort == sort
                    &&& read.input.limit() == budget
                    &&& read.columns.projection@ == with_missing(
                        projection@,
                        sort_columns(sort, filter_model(filter), self.schema),
                    )
                    &&& points_at(
                        read.columns.output_positions@,
                        read.columns.projection@,
                        projection@,
                    )
                    &&& read.columns.projection@[read.columns.extra_positions@[0] as int]
                        == sort.column
                    &&& filters_by(
                        read.filter,
                        filter_model(filter),
                        self.schema,
                        read.columns.projection@,
                    )
                },
            },
    {
        if let Err(error) = self.validate_sort(sort) {
            return Err(ReadError::Validation(error));
        }
        let column = match self.filtered_column(filter) {
            Ok(column) => column,
            Err(error) => return Err(ReadError::Filter(error)),
        };
        if !source_within_budget(budget, self.row_count) {
            return Err(ReadError::TooManyRows(self.row_count, budget.max_rows()));
        }
        let mut extra: Vec<usize> = Vec::new();
        extra.push(sort.column);
        if let Some(column) = column {
            extra.push(column);
        }
        assert(extra@ =~= sort_columns(sort, filter_model(filter), self.schema));
        let columns = match plan_columns(projection, &extra, self.column_count) {
            Ok(columns) => columns,
            Err(error) => return Err(ReadError::Projection(error)),
        };
        let position: usize = if columns.extra_positions.len() > 1 {
            columns.extra_positions[1]
        } else {
            0
        };
        assert(columns.extra_positions@[0] < columns.projection@.len());
        let row_filter = self.row_filter(filter, column, position);
        let read = SortedRead { filter: row_filter, columns, sort, input: SortInput::new(budget) };
        assert(read.rows() =~= Seq::<Seq<Seq<u8>>>::empty());
        Ok(read)
    }
}

// ---------------------------------------------------------------------------
// Aggregates
// ---------------------------------------------------------------------------

/// Reads the rows that aggregates are computed of.
pub struct AggregatedRead {
    pub filter: Option<RowFilter>,
    /// The columns to decode; none where no row has to be read.
    pub projection: Option<Projection>,
    /// Where the column stands that is grouped by.
    pub group_position: Option<usize>,
    /// Where the inputs of the expressions stand.
    pub positions: Vec<Option<usize>>,
    pub groups: GroupCollector,
}

/// The column of a filter, where there is one.
pub open spec fn optional_filter_column(filter: Option<FilterModel>, schema: Schema) -> Option<
    usize,
> {
    match filter {
        Some(filter) => Some(filter_column(filter, schema)),
        None => None,
    }
}

/// The columns that aggregates over filtered rows read.
pub open spec fn aggregated_columns(
    aggregate: AggregateSpec,
    filter: Option<FilterModel>,
    schema: Schema,
) -> Seq<usize> {
    aggregate_columns(aggregate, optional_filter_column(filter, schema))
}

/// The groups that aggregates start with, or what is wrong with the read. Where no
/// column is read, the rows are counted at once.
pub open spec fn aggregated_start(
    dataset: DatasetMetadata,
    filter: Option<FilterModel>,
    aggregate: AggregateSpec,
    budget: GroupBudget,
) -> Result<Seq<GroupModel>, ReadFault> {
    let fields = dataset.schema.fields@;
    let columns = aggregated_columns(aggregate, filter, dataset.schema);
    if let Some(error) = aggregate_fault(aggregate, fields) {
        Err(ReadFault::Validation(error))
    } else if let Some(error) = optional_filter_fault(filter, dataset.schema) {
        Err(ReadFault::Filter(error))
    } else if columns.len() == 0 {
        match collector_start(aggregate, fields, budget) {
            Err(error) => Err(ReadFault::Groups(error)),
            Ok(groups) => match counts_added(
                groups[0].accs,
                dataset.row_count,
                aggregate.listed().len(),
            ) {
                Err(error) => Err(ReadFault::Groups(error)),
                Ok(accs) => Ok(groups.update(0, GroupModel { key: groups[0].key, accs })),
            },
        }
    } else if let Some(error) = projection_fault(columns, dataset.column_count as nat) {
        Err(ReadFault::Projection(error))
    } else {
        match collector_start(aggregate, fields, budget) {
            Err(error) => Err(ReadFault::Groups(error)),
            Ok(groups) => Ok(groups),
        }
    }
}

/// Whether a position is that of a column that may be read.
pub open spec fn stands_at(
    position: Option<usize>,
    decoded: Seq<usize>,
    column: Option<usize>,
) -> bool {
    match (position, column) {
        (Some(position), Some(column)) => position < decoded.len() && decoded[position as int]
            == column,
        (position, column) => position is None && column is None,
    }
}

proof fn lemma_input_listed(expressions: Seq<crate::aggregate::AggregateExpr>, i: int)
    requires
        0 <= i < expressions.len(),
        expressions[i].input() is Some,
    ensures
        crate::source::input_columns(expressions).contains(expressions[i].input()->0),
    decreases expressions.len(),
{
    let all = crate::source::input_columns(expressions);
    let fewer = crate::source::input_columns(expressions.drop_last());
    if i < expressions.len() - 1 {
        lemma_input_listed(expressions.drop_last(), i);
        let k = choose|k: int| 0 <= k < fewer.len() && fewer[k] == expressions[i].input()->0;
        assert(all[k] == fewer[k]);
    } else {
        assert(all[fewer.len() as int] == expressions[i].input()->0);
    }
}

proof fn lemma_kept_by_adding(base: Seq<usize>, extra: Seq<usize>, column: usize)
    requires
        base.contains(column) || extra.contains(column),
    ensures
        with_missing(base, extra).contains(column),
{
    crate::window::lemma_with_missing(base, extra);
    let all = with_missing(base, extra);
    if base.contains(column) {
        let k = choose|k: int| 0 <= k < base.len() && base[k] == column;
        assert(all.take(base.len() as int)[k] == column);
        assert(all[k] == column);
    } else {
        let k = choose|k: int| 0 <= k < extra.len() && extra[k] == column;
        assert(all.contains(extra[k]));
    }
}

/// Every column that an aggregate speaks of, and that of the filter, is read.
proof fn lemma_columns_are_read(aggregate: AggregateSpec, column: Option<usize>)
    ensures
        aggregate.grouping() matches Some(group) ==> aggregate_columns(aggregate, column).contains(
            group,
        ),
        column matches Some(column) ==> aggregate_columns(aggregate, Some(column)).contains(column),
        forall|i: int|
            0 <= i < aggregate.listed().len() && (#[trigger] aggregate.listed()[i]).input() is Some
                ==> aggregate_columns(aggregate, column).contains(
                aggregate.listed()[i].input()->0,
            ),
{
    let group = match aggregate.grouping() {
        Some(group) => seq![group],
        None => Seq::empty(),
    };
    let inputs = with_missing(group, crate::source::input_columns(aggregate.listed()));
    if let Some(name) = aggregate.grouping() {
        assert(group[0] == name);
        lemma_kept_by_adding(group, crate::source::input_columns(aggregate.listed()), name);
        if let Some(column) = column {
            lemma_kept_by_adding(inputs, seq![column], name);
        }
    }
    if let Some(column) = column {
        assert(seq![column][0] == column);
        lemma_kept_by_adding(inputs, seq![column], column);
    }
    assert forall|i: int|
        0 <= i < aggregate.listed().len() && (#[trigger] aggregate.listed()[i]).input() is Some
        implies aggregate_columns(aggregate, column).contains(
        aggregate.listed()[i].input()->0,
    ) by {
        let input = aggregate.listed()[i].input()->0;
        lemma_input_listed(aggregate.listed(), i);
        lemma_kept_by_adding(group, crate::source::input_columns(aggregate.listed()), input);
        if let Some(column) = column {
            lemma_kept_by_adding(inputs, seq![column], input);
        }
    }
}

fn input_positions(columns: &Vec<usize>, aggregate: &AggregateSpec) -> (positions: Vec<
    Option<usize>,
>)
    requires
        forall|i: int|
            0 <= i < aggregate.listed().len() && (#[trigger] aggregate.listed()[i]).input() is Some
                ==> columns@.contains(aggregate.listed()[i].input()->0),
    ensures
        positions@.len() == aggregate.listed().len(),
        forall|i: int|
            0 <= i < positions@.len() ==> stands_at(
                #[trigger] positions@[i],
                columns@,
                aggregate.listed()[i].input(),
            ),
{
    let expressions = aggregate.expressions();
    let mut positions: Vec<Option<usize>> = Vec::new();
    let mut i: usize = 0;
    while i < expressions.len()
        invariant
            expressions@ == aggregate.listed(),
            i <= expressions@.len(),
            positions@.len() == i,
            forall|k: int|
                0 <= k < aggregate.listed().len() && (
                #[trigger] aggregate.listed()[k]).input() is Some ==> columns@.contains(
                    aggregate.listed()[k].input()->0,
                ),
            forall|k: int|
                0 <= k < i ==> stands_at(
                    #[trigger] positions@[k],
                    columns@,
                    aggregate.listed()[k].input(),
                ),
        decreases expressions@.len() - i,
    {
        assert(expressions@[i as int] == aggregate.listed()[i as int]);
        let position: Option<usize> = match expressions[i].column() {
            Some(column) => position_in(columns, column),
            None => None,
        };
        positions.push(position);
        i = i + 1;
    }
    positions
}

/// Whether all columns have so many rows.
pub open spec fn columns_fit(columns: Seq<Column>, rows: nat) -> bool {
    forall|c: int| 0 <= c < columns.len() ==> column_rows(#[trigger] columns[c]) == rows
}

fn all_columns_fit(columns: &Vec<Column>, rows: usize) -> (fit: bool)
    ensures
        fit == columns_fit(columns@, rows as nat),
{
    let mut c: usize = 0;
    while c < columns.len()
        invariant
            c <= columns@.len(),
            forall|k: int| 0 <= k < c ==> column_rows(#[trigger] columns@[k]) == rows,
        decreases columns@.len() - c,
    {
        if columns[c].len() != rows {
            assert(column_rows(columns@[c as int]) != rows);
            return false;
        }
        c = c + 1;
    }
    true
}

impl AggregatedRead {
    /// The columns that are decoded.
    pub open spec fn decoded(&self) -> Seq<usize> {
        match self.projection {
            Some(projection) => projection@,
            None => Seq::empty(),
        }
    }

    pub open spec fn wf(&self) -> bool {
        &&& self.groups.wf()
        &&& self.positions@.len() == self.groups.expressions@.len()
        &&& forall|i: int|
            0 <= i < self.positions@.len() && (#[trigger] self.positions@[i]) is Some
                ==> self.positions@[i]->0 < self.decoded().len()
        &&& self.group_position matches Some(position) ==> position < self.decoded().len()
    }

    /// Only the groups differ.
    pub open spec fn continues(&self, before: &Self) -> bool {
        &&& self.filter == before.filter
        &&& self.projection == before.projection
        &&& self.group_position == before.group_position
        &&& self.positions == before.positions
        &&& self.groups.same_setup(&before.groups)
    }

    /// Takes in the next rows that pass; `columns` holds the values of the decoded
    /// columns.
    pub fn take<F: Fn(u64, FloatCell) -> FloatSum>(
        &mut self,
        columns: &Vec<Column>,
        rows: usize,
        plus: &F,
    ) -> (result: Result<(), ReadError>)
        requires
            old(self).wf(),
            forall|bits: u64, cell: FloatCell| #[trigger] plus.requires((bits, cell)),
        ensures
            final(self).continues(old(self)),
            result is Ok ==> final(self).wf(),
            if columns@.len() != old(self).decoded().len() || !columns_fit(
                columns@,
                rows as nat,
            ) {
                result is Err && result->Err_0 is Rows && final(self).groups == old(self).groups
            } else {
                rows_outcome(
                    *plus,
                    old(self).groups.models(),
                    rows_read(
                        columns@,
                        old(self).groups.group_type(),
                        old(self).group_position,
                        old(self).groups.expressions@,
                        old(self).groups.input_types@,
                        old(self).positions@,
                        rows as nat,
                    ),
                    old(self).groups.expressions@,
                    old(self).groups.initial(),
                    old(self).groups.budget,
                    match result {
                        Ok(_) => Ok::<Seq<GroupModel>, AggregateError>(
                            final(self).groups.models(),
                        ),
                        Err(error) => Err::<Seq<GroupModel>, AggregateError>(error->Groups_0),
                    },
                ) && (result matches Err(error) ==> error is Groups)
            },
    {
        let decoded: usize = match &self.projection {
            Some(projection) => projection.as_slice().len(),
            None => 0,
        };
        if columns.len() != decoded || !all_columns_fit(columns, rows) {
            return Err(ReadError::Rows);
        }
        match self.groups.update_batch(columns, rows, self.group_position, &self.positions, plus) {
            Ok(_) => Ok(()),
            Err(error) => Err(ReadError::Groups(error)),
        }
    }
}

impl DatasetMetadata {
    /// Gets a read for aggregates ready. Where they only count all rows, nothing is
    /// read.
    pub fn plan_aggregated(
        &self,
        filter: Option<&FilterExpr>,
        aggregate: &AggregateSpec,
        budget: GroupBudget,
    ) -> (result: Result<AggregatedRead, ReadError>)
        ensures
            match aggregated_start(*self, filter_model(filter), *aggregate, budget) {
                Err(fault) => result matches Err(error) && error.reports(fault),
                Ok(groups) => {
                    &&& result matches Ok(read)
                    &&& read.wf()
                    &&& read.groups.models() == groups
                    &&& read.groups.collects(*aggregate, self.schema.fields@)
                    &&& read.groups.budget == budget
                    &&& read.decoded() == aggregated_columns(
                        *aggregate,
                        filter_model(filter),
                        self.schema,
                    )
                    &&& read.projection is None <==> read.decoded().len() == 0
                    &&& filters_by(
                        read.filter,
                        filter_model(filter),
                        self.schema,
                        read.decoded(),
                    )
                    &&& stands_at(read.group_position, read.decoded(), aggregate.grouping())
                    &&& forall|i: int|
                        0 <= i < aggregate.listed().len() ==> stands_at(
                            #[trigger] read.positions@[i],
                            read.decoded(),
                            aggregate.listed()[i].input(),
                        )
                },
            },
    {
        if let Err(error) = self.validate_aggregate(aggregate) {
            return Err(ReadError::Validation(error));
        }
        let column = match self.filtered_column(filter) {
            Ok(column) => column,
            Err(error) => return Err(ReadError::Filter(error)),
        };
        let columns = aggregate_read_columns(aggregate, column);
        proof {
            lemma_columns_are_read(*aggregate, column);
        }
        let positions = input_positions(&columns, aggregate);
        let group_position: Option<usize> = match aggregate.group_by() {
            Some(group) => position_in(&columns, group),
            None => None,
        };
        let filter_position: usize = match column {
            Some(column) => match position_in(&columns, column) {
                Some(position) => position,
                None => 0,
            },
            None => 0,
        };
        let row_filter = self.row_filter(filter, column, filter_position);
        let counts_only = columns.len() == 0;
        let projection: Option<Projection> = if counts_only {
            None
        } else {
            match Projection::columns(columns, self.column_count) {
                Ok(projection) => Some(projection),
                Err(error) => return Err(ReadError::Projection(error)),
            }
        };
        let mut groups = match GroupCollector::new(aggregate, &self.schema, budget) {
            Ok(groups) => groups,
            Err(error) => return Err(ReadError::Groups(error)),
        };
        if counts_only {
            proof {
                reveal_with_fuel(crate::groups::group_index, 2);
                assert(groups.models().len() == 1);
            }
            if let Err(error) = groups.update_count_all(self.row_count) {
                return Err(ReadError::Groups(error));
            }
        }
        Ok(
            AggregatedRead {
                filter: row_filter,
                projection,
                group_position,
                positions,
                groups,
            },
        )
    }
}

/// Filtering keeps exactly the rows that pass, in their order: each row that is kept stands
/// at a place where the filter lets it pass, and every such place is among them.
pub proof fn law_filter_keeps_what_passes(
    filter: RowFilter,
    rows: Seq<Seq<Seq<u8>>>,
    cells: FilterInput,
) -> (places: Seq<int>)
    requires
        input_rows(cells) == rows.len(),
    ensures
        kept_rows(Some(filter), rows, Some(cells)).len() == places.len(),
        forall|k: int|
            0 <= k < places.len() ==> 0 <= #[trigger] places[k] < rows.len() && row_matches(
                filter.filter@,
                cells,
                places[k],
            ) && kept_rows(Some(filter), rows, Some(cells))[k] == rows[places[k]],
        forall|k: int, l: int| 0 <= k < l < places.len() ==> places[k] < places[l],
        forall|i: int|
            0 <= i < rows.len() && #[trigger] row_matches(filter.filter@, cells, i)
                ==> places.contains(i),
        kept_rows(None, rows, None) == rows,
{
    let mask = filter_mask(filter.filter@, cells);
    let places = crate::batch::law_selected_rows_are_those_marked(rows, mask);
    assert forall|i: int|
        0 <= i < rows.len() && #[trigger] row_matches(
            filter.filter@,
            cells,
            i,
        ) implies places.contains(i) by {
        assert(mask[i]);
    }
    places
}

} // verus!
