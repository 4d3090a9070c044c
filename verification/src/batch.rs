//! Decoded record batches: tables of rows that the explorer filters, slices,
//! reorders and joins, but does not look into.

use std::sync::Arc;

use arrow_array::{BooleanArray, RecordBatch, UInt32Array};
use arrow_schema::ArrowError;
use arrow_select::{concat::concat_batches, filter::filter_record_batch, take::take_record_batch};
use crate::nested::{batch_counted, can_fit_together, fit_together, node_type, node_counts};
use vstd::prelude::*;

verus! {

/// A table of equally long columns, held as a [`RecordBatch`].
#[verifier::external_body]
#[derive(Debug)]
pub struct Batch {
    pub table: RecordBatch,
}

/// What an operation on record batches reports when it fails.
#[verifier::external_type_specification]
#[verifier::external_body]
pub struct ExArrowError(ArrowError);

/// Why batches cannot be put together, or their rows in another order.
#[derive(Debug)]
pub enum BatchError {
    /// There is more below their columns than can be counted.
    TooLarge,
    /// Arrow refuses it.
    Refused(ArrowError),
}

impl BatchError {
    /// The message that the user sees. What Arrow refuses, it explains itself.
    pub open spec fn message_text(self) -> Option<Seq<char>> {
        match self {
            BatchError::TooLarge => Some("the rows hold more nested values than can be counted"@),
            BatchError::Refused(_) => None,
        }
    }

    /// The message that the user sees.
    pub fn message(&self) -> (text: Option<String>)
        ensures
            match text {
                Some(text) => self.message_text() == Some(text@),
                None => self.message_text() is None,
            },
    {
        match self {
            BatchError::TooLarge => Some(
                "the rows hold more nested values than can be counted".to_owned(),
            ),
            BatchError::Refused(_) => None,
        }
    }
}

/// The rows of a batch, in order. A row is its cells, in the order of the
/// columns, each written as bytes.
pub uninterp spec fn batch_rows(batch: Batch) -> Seq<Seq<Seq<u8>>>;

/// The number of columns of a batch.
pub uninterp spec fn batch_width(batch: Batch) -> nat;

/// Whether a column has the type that the schema of its batch gives it, and no null
/// where the schema allows none: what `RecordBatch::try_new` asks of each column.
pub uninterp spec fn column_conforms(batch: Batch, column: int) -> bool;

/// Whether `take` gives the rows of a column at `indices`, as a column that
/// `RecordBatch::try_new` accepts under the schema of the batch.
pub uninterp spec fn column_taken(batch: Batch, column: int, indices: Seq<u32>) -> bool;

/// Whether a column still has the type that the schema gives it, and no null where the
/// schema allows none, once `filter_record_batch` has left out the rows that `mask`
/// does not select.
pub uninterp spec fn column_thinned(batch: Batch, column: int, mask: Seq<bool>) -> bool;

/// Whether `concat_batches` puts these batches together under the schema of the first.
pub uninterp spec fn batches_join(batches: Seq<Batch>) -> bool;

/// Whether a batch can be made of the columns at `columns`: there is one, and all
/// of them conform.
pub open spec fn makes_batch(batch: Batch, columns: Seq<usize>) -> bool {
    columns.len() > 0 && forall|i: int|
        0 <= i < columns.len() ==> column_conforms(batch, #[trigger] columns[i] as int)
}

/// Whether a batch has columns at all these positions.
pub open spec fn columns_within(batch: Batch, columns: Seq<usize>) -> bool {
    forall|i: int| 0 <= i < columns.len() ==> #[trigger] columns[i] < batch_width(batch)
}

/// `rows` without those that `mask` does not select.
pub open spec fn selected_rows<T>(rows: Seq<T>, mask: Seq<bool>) -> Seq<T>
    decreases rows.len(),
{
    if rows.len() == 0 || mask.len() != rows.len() {
        Seq::empty()
    } else if mask.last() {
        selected_rows(rows.drop_last(), mask.drop_last()).push(rows.last())
    } else {
        selected_rows(rows.drop_last(), mask.drop_last())
    }
}

/// The cells of `row` at `columns`.
pub open spec fn project_row<T>(row: Seq<T>, columns: Seq<usize>) -> Seq<T> {
    columns.map_values(|column: usize| row[column as int])
}

/// The cells of every row at `columns`.
pub open spec fn project_rows<T>(rows: Seq<Seq<T>>, columns: Seq<usize>) -> Seq<Seq<T>> {
    rows.map_values(|row: Seq<T>| project_row(row, columns))
}

/// All rows of `batches`, one batch after the other.
pub open spec fn rows_of(batches: Seq<Batch>) -> Seq<Seq<Seq<u8>>>
    decreases batches.len(),
{
    if batches.len() == 0 {
        Seq::empty()
    } else {
        rows_of(batches.drop_last()) + batch_rows(batches.last())
    }
}

/// `RecordBatch::num_rows`: how many rows the batch has.
#[verifier::external_body]
pub(crate) fn row_count(batch: &Batch) -> (rows: usize)
    ensures
        rows == batch_rows(*batch).len(),
{
    batch.table.num_rows()
}

/// `RecordBatch::num_columns`: how many columns the batch has.
#[verifier::external_body]
pub(crate) fn column_count(batch: &Batch) -> (columns: usize)
    ensures
        columns == batch_width(*batch),
{
    batch.table.num_columns()
}

/// `RecordBatch::get_array_memory_size`: an estimate of the memory that the
/// batch occupies. It counts what was allocated, so nothing is promised of it.
#[verifier::external_body]
pub(crate) fn memory_size(batch: &Batch) -> usize {
    batch.table.get_array_memory_size()
}

/// `RecordBatch::clone`: the same columns, shared.
#[verifier::external_body]
pub(crate) fn share(batch: &Batch) -> (shared: Batch)
    ensures
        batch_rows(shared) == batch_rows(*batch),
        batch_width(shared) == batch_width(*batch),
{
    Batch { table: batch.table.clone() }
}

/// `RecordBatch::slice`: `count` rows from row `first` on. The columns keep their
/// types, and have no null that was not there.
#[verifier::external_body]
pub(crate) fn slice_rows(batch: &Batch, first: usize, count: usize) -> (part: Batch)
    requires
        first + count <= batch_rows(*batch).len(),
    ensures
        batch_rows(part) == batch_rows(*batch).subrange(first as int, first + count),
        batch_width(part) == batch_width(*batch),
        forall|column: int|
            0 <= column < batch_width(*batch) && column_conforms(*batch, column)
                ==> #[trigger] column_conforms(part, column),
{
    Batch { table: batch.table.slice(first, count) }
}

/// `filter_record_batch`: the rows that `mask` selects, in order. It refuses only a
/// mask that is longer than the columns. Whether the columns conform then is a name:
/// the types of run-end encoded columns are written anew. Where `mask` selects all
/// rows or none, the columns come out as slices or empty, of the types that they have.
/// It may panic where what is below the columns cannot be counted.
#[verifier::external_body]
pub(crate) fn filter_rows(batch: &Batch, mask: &Vec<bool>) -> (result: Result<
    Batch,
    ArrowError,
>)
    requires
        mask@.len() == batch_rows(*batch).len(),
        batch_counted(*batch),
    ensures
        result is Ok,
        batch_rows(result->Ok_0) == selected_rows(batch_rows(*batch), mask@),
        batch_width(result->Ok_0) == batch_width(*batch),
        forall|column: int|
            0 <= column < batch_width(*batch) ==> #[trigger] column_conforms(result->Ok_0, column)
                == column_thinned(*batch, column, mask@),
        batch_rows(result->Ok_0).len() == 0 || batch_rows(result->Ok_0).len() == mask@.len()
            ==> forall|column: int|
            0 <= column < batch_width(*batch) && column_conforms(*batch, column)
                ==> #[trigger] column_conforms(result->Ok_0, column),
{
    filter_record_batch(&batch.table, &BooleanArray::from(mask.clone())).map(|table| Batch { table })
}

/// `RecordBatch::project`: the columns at `columns`, in that order, each with its field
/// of the schema. It checks nothing but the positions, and fails where there is no
/// column at one of them.
#[verifier::external_body]
pub(crate) fn pick_columns(batch: &Batch, columns: &Vec<usize>) -> (result: Result<
    Batch,
    ArrowError,
>)
    ensures
        result is Ok <==> columns_within(*batch, columns@),
        result matches Ok(part) ==> batch_rows(part) == project_rows(batch_rows(*batch), columns@)
            && batch_width(part) == columns@.len(),
        result matches Ok(part) ==> forall|i: int|
            0 <= i < columns@.len() ==> #[trigger] column_conforms(part, i) == column_conforms(
                *batch,
                columns@[i] as int,
            ),
        result matches Ok(part) ==> forall|i: int, indices: Seq<u32>|
            0 <= i < columns@.len() ==> #[trigger] column_taken(part, i, indices) == column_taken(
                *batch,
                columns@[i] as int,
                indices,
            ),
        result matches Ok(part) ==> forall|i: int, path: Seq<usize>|
            0 <= i < columns@.len() ==> #[trigger] node_type(part, i, path) == node_type(
                *batch,
                columns@[i] as int,
                path,
            ),
        result matches Ok(part) ==> forall|i: int, path: Seq<usize>|
            0 <= i < columns@.len() ==> #[trigger] node_counts(part, i, path) == node_counts(
                *batch,
                columns@[i] as int,
                path,
            ),
{
    batch.table.project(columns).map(|table| Batch { table })
}

/// `RecordBatch::try_new` on the fields and the columns of `batch`, which are equally
/// long: the same columns. It fails where there is no column, and on a column that
/// does not conform.
#[verifier::external_body]
fn check_columns(batch: &Batch) -> (result: Result<Batch, ArrowError>)
    ensures
        result is Ok <==> batch_width(*batch) > 0 && forall|column: int|
            0 <= column < batch_width(*batch) ==> #[trigger] column_conforms(*batch, column),
        result matches Ok(checked) ==> batch_rows(checked) == batch_rows(*batch) && batch_width(
            checked,
        ) == batch_width(*batch),
        result matches Ok(checked) ==> forall|column: int, indices: Seq<u32>|
            0 <= column < batch_width(*batch) ==> #[trigger] column_taken(checked, column, indices)
                == column_taken(*batch, column, indices),
        result matches Ok(checked) ==> forall|column: int, path: Seq<usize>|
            0 <= column < batch_width(*batch) ==> #[trigger] node_type(checked, column, path)
                == node_type(*batch, column, path),
        result matches Ok(checked) ==> forall|column: int, path: Seq<usize>|
            0 <= column < batch_width(*batch) ==> #[trigger] node_counts(checked, column, path)
                == node_counts(*batch, column, path),
{
    let schema = arrow_schema::Schema::new(batch.table.schema().fields().clone());
    RecordBatch::try_new(Arc::new(schema), batch.table.columns().to_vec())
        .map(|table| Batch { table })
}

/// A batch of the columns of `batch` at `columns`, in that order.
pub(crate) fn project_columns(batch: &Batch, columns: &Vec<usize>) -> (result: Result<
    Batch,
    ArrowError,
>)
    requires
        columns_within(*batch, columns@),
    ensures
        result is Ok <==> makes_batch(*batch, columns@),
        result matches Ok(part) ==> batch_rows(part) == project_rows(batch_rows(*batch), columns@)
            && batch_width(part) == columns@.len(),
        result matches Ok(part) ==> forall|i: int, indices: Seq<u32>|
            0 <= i < columns@.len() ==> #[trigger] column_taken(part, i, indices) == column_taken(
                *batch,
                columns@[i] as int,
                indices,
            ),
        result matches Ok(part) ==> forall|i: int, path: Seq<usize>|
            0 <= i < columns@.len() ==> #[trigger] node_type(part, i, path) == node_type(
                *batch,
                columns@[i] as int,
                path,
            ),
        result matches Ok(part) ==> forall|i: int, path: Seq<usize>|
            0 <= i < columns@.len() ==> #[trigger] node_counts(part, i, path) == node_counts(
                *batch,
                columns@[i] as int,
                path,
            ),
{
    let picked = match pick_columns(batch, columns) {
        Ok(picked) => picked,
        Err(error) => return Err(error),
    };
    proof {
        if makes_batch(*batch, columns@) {
            assert forall|i: int| 0 <= i < columns@.len() implies #[trigger] column_conforms(
                picked,
                i,
            ) by {
                assert(column_conforms(*batch, columns@[i] as int));
            }
        } else if columns@.len() > 0 {
            let i = choose|i: int|
                0 <= i < columns@.len() && !column_conforms(*batch, #[trigger] columns@[i] as int);
            assert(!column_conforms(picked, i));
        }
    }
    check_columns(&picked)
}

/// `concat_batches` under the schema of the first batch: the rows of all
/// batches, one batch after the other. Where the rows or what is below the columns
/// cannot be counted, it may panic.
#[verifier::external_body]
fn join_batches(batches: &Vec<Batch>) -> (result: Result<Batch, ArrowError>)
    requires
        batches@.len() > 0,
        forall|i: int|
            0 <= i < batches@.len() ==> batch_width(#[trigger] batches@[i]) == batch_width(
                batches@[0],
            ),
        fit_together(batches@),
    ensures
        result is Ok <==> batches_join(batches@),
        result matches Ok(joined) ==> batch_rows(joined) == rows_of(batches@) && batch_width(joined)
            == batch_width(batches@[0]),
{
    concat_batches(&batches[0].table.schema(), batches.iter().map(|batch| &batch.table))
        .map(|table| Batch { table })
}

/// `take_record_batch`: the rows at `indices`, in that order. It takes them from each
/// column, and makes a batch of what it gets, for which there must be a column. It
/// may panic where rows are taken more than once, or where what is below the columns
/// cannot be counted.
#[verifier::external_body]
pub(crate) fn take_rows(batch: &Batch, indices: &Vec<u32>) -> (result: Result<
    Batch,
    ArrowError,
>)
    requires
        forall|i: int| 0 <= i < indices@.len() ==> indices@[i] < batch_rows(*batch).len(),
        indices@.no_duplicates(),
        batch_counted(*batch),
    ensures
        result is Ok <==> batch_width(*batch) > 0 && forall|column: int|
            0 <= column < batch_width(*batch) ==> #[trigger] column_taken(
                *batch,
                column,
                indices@,
            ),
        result matches Ok(taken) ==> batch_rows(taken) == indices@.map_values(
            |index: u32| batch_rows(*batch)[index as int],
        ) && batch_width(taken) == batch_width(*batch),
{
    take_record_batch(&batch.table, &UInt32Array::from(indices.clone()))
        .map(|table| Batch { table })
}

/// The rows of the batches up to `k`, then the batch at `k`.
pub proof fn lemma_rows_of_next(batches: Seq<Batch>, k: int)
    requires
        0 <= k < batches.len(),
    ensures
        rows_of(batches.take(k + 1)) == rows_of(batches.take(k)) + batch_rows(batches[k]),
{
    assert(batches.take(k + 1).drop_last() =~= batches.take(k));
}

/// Whether a batch has columns at all these positions.
pub fn has_columns(batch: &Batch, positions: &Vec<usize>) -> (yes: bool)
    ensures
        yes == columns_within(*batch, positions@),
{
    let columns: usize = column_count(batch);
    let mut i: usize = 0;
    while i < positions.len()
        invariant
            i <= positions@.len(),
            columns == batch_width(*batch),
            forall|k: int| 0 <= k < i ==> #[trigger] positions@[k] < batch_width(*batch),
        decreases positions@.len() - i,
    {
        if positions[i] >= columns {
            return false;
        }
        i = i + 1;
    }
    true
}

/// The rows of two runs of batches follow each other.
pub proof fn lemma_rows_of_concat(left: Seq<Batch>, right: Seq<Batch>)
    ensures
        rows_of(left + right) == rows_of(left) + rows_of(right),
    decreases right.len(),
{
    if right.len() == 0 {
        assert(left + right =~= left);
        assert(rows_of(left) + rows_of(right) =~= rows_of(left));
    } else {
        lemma_rows_of_concat(left, right.drop_last());
        assert((left + right).drop_last() =~= left + right.drop_last());
        assert(rows_of(left) + rows_of(right.drop_last()) + batch_rows(right.last()) =~= rows_of(
            left,
        ) + (rows_of(right.drop_last()) + batch_rows(right.last())));
    }
}

/// The rows of a single batch.
pub proof fn lemma_rows_of_one(batch: Batch)
    ensures
        rows_of(seq![batch]) == batch_rows(batch),
{
    assert(seq![batch].drop_last() =~= Seq::<Batch>::empty());
    reveal_with_fuel(rows_of, 2);
    assert(Seq::<Seq<Seq<u8>>>::empty() + batch_rows(batch) =~= batch_rows(batch));
}

/// Selecting rows keeps at most as many.
pub proof fn lemma_selected_len<T>(rows: Seq<T>, mask: Seq<bool>)
    ensures
        selected_rows(rows, mask).len() <= rows.len(),
    decreases rows.len(),
{
    if rows.len() > 0 && mask.len() == rows.len() {
        lemma_selected_len(rows.drop_last(), mask.drop_last());
    }
}

/// Whether the batches all have this many columns.
pub open spec fn all_wide(batches: Seq<Batch>, width: nat) -> bool {
    forall|i: int| 0 <= i < batches.len() ==> batch_width(#[trigger] batches[i]) == width
}

/// Whether the batches all have the same number of columns.
pub fn equally_wide(batches: &Vec<Batch>) -> (yes: bool)
    ensures
        yes == (batches@.len() > 0 ==> all_wide(batches@, batch_width(batches@[0]))),
{
    if batches.len() == 0 {
        return true;
    }
    let width: usize = column_count(&batches[0]);
    let mut i: usize = 0;
    while i < batches.len()
        invariant
            i <= batches@.len(),
            batches@.len() > 0,
            width == batch_width(batches@[0]),
            forall|k: int| 0 <= k < i ==> batch_width(#[trigger] batches@[k]) == width,
        decreases batches@.len() - i,
    {
        if column_count(&batches[i]) != width {
            assert(batch_width(batches@[i as int]) != width);
            return false;
        }
        i = i + 1;
    }
    true
}

/// Whether the rows of these batches can be had as one batch: of a single batch as it
/// is, of more of them where they fit together and Arrow puts them together.
pub open spec fn can_join(batches: Seq<Batch>) -> bool {
    batches.len() > 1 ==> fit_together(batches) && batches_join(batches)
}

/// Whether `result` is what comes of putting the batches together.
pub open spec fn joined_from(
    result: Result<Option<Batch>, BatchError>,
    batches: Seq<Batch>,
) -> bool {
    match result {
        Ok(None) => batches.len() == 0,
        Ok(Some(joined)) => {
            &&& batches.len() > 0
            &&& can_join(batches)
            &&& batch_rows(joined) == rows_of(batches)
            &&& batch_width(joined) == batch_width(batches[0])
        },
        Err(BatchError::TooLarge) => batches.len() > 1 && !fit_together(batches),
        Err(BatchError::Refused(_)) => batches.len() > 1 && fit_together(batches)
            && !batches_join(batches),
    }
}

/// The rows of all batches as one batch; `None` where there is no batch.
pub fn concat_or_empty(batches: Vec<Batch>) -> (result: Result<Option<Batch>, BatchError>)
    requires
        batches@.len() > 0 ==> all_wide(batches@, batch_width(batches@[0])),
    ensures
        joined_from(result, batches@),
        batches@.len() == 1 ==> (result matches Ok(Some(only)) && only == batches@[0]),
{
    let mut batches = batches;
    let ghost all = batches@;
    if batches.len() == 0 {
        return Ok(None);
    }
    if batches.len() == 1 {
        proof {
            lemma_rows_of_next(all, 0);
            assert(all.take(1) =~= all);
            assert(all.take(0) =~= Seq::<Batch>::empty());
            assert(rows_of(Seq::<Batch>::empty()) =~= Seq::empty());
            assert(rows_of(all) =~= batch_rows(all[0]));
        }
        return Ok(batches.pop());
    }
    if !can_fit_together(&batches) {
        return Err(BatchError::TooLarge);
    }
    match join_batches(&batches) {
        Ok(joined) => Ok(Some(joined)),
        Err(error) => Err(BatchError::Refused(error)),
    }
}

/// The rows that are selected are those that the mask marks, all of them, and in their
/// order: the one at each place stands at the next marked place of the input.
pub proof fn law_selected_rows_are_those_marked<T>(rows: Seq<T>, mask: Seq<bool>) -> (places: Seq<int>)
    requires
        mask.len() == rows.len(),
    ensures
        places.len() == selected_rows(rows, mask).len(),
        forall|k: int|
            0 <= k < places.len() ==> 0 <= #[trigger] places[k] < rows.len() && mask[places[k]]
                && selected_rows(rows, mask)[k] == rows[places[k]],
        forall|k: int, l: int| 0 <= k < l < places.len() ==> places[k] < places[l],
        forall|i: int| 0 <= i < rows.len() && #[trigger] mask[i] ==> places.contains(i),
    decreases rows.len(),
{
    if rows.len() == 0 {
        Seq::empty()
    } else {
        let fewer = law_selected_rows_are_those_marked(rows.drop_last(), mask.drop_last());
        let last = rows.len() - 1;
        let before = selected_rows(rows.drop_last(), mask.drop_last());
        if mask.last() {
            let places = fewer.push(last);
            assert forall|k: int| 0 <= k < places.len() implies 0 <= #[trigger] places[k] < rows.len()
                && mask[places[k]] && selected_rows(rows, mask)[k] == rows[places[k]] by {
                if k < fewer.len() {
                    assert(places[k] == fewer[k]);
                    assert(mask.drop_last()[fewer[k]]);
                    assert(rows.drop_last()[fewer[k]] == rows[fewer[k]]);
                }
            }
            assert forall|i: int| 0 <= i < rows.len() && #[trigger] mask[i] implies places.contains(
                i,
            ) by {
                if i < last {
                    assert(mask.drop_last()[i]);
                    assert(fewer.contains(i));
                    let k = choose|k: int| 0 <= k < fewer.len() && fewer[k] == i;
                    assert(places[k] == i);
                } else {
                    assert(places[fewer.len() as int] == i);
                }
            }
            places
        } else {
            assert forall|k: int| 0 <= k < fewer.len() implies 0 <= #[trigger] fewer[k] < rows.len()
                && mask[fewer[k]] && selected_rows(rows, mask)[k] == rows[fewer[k]] by {
                assert(mask.drop_last()[fewer[k]]);
                assert(rows.drop_last()[fewer[k]] == rows[fewer[k]]);
            }
            assert forall|i: int| 0 <= i < rows.len() && #[trigger] mask[i] implies fewer.contains(
                i,
            ) by {
                assert(mask.drop_last()[i]);
            }
            fewer
        }
    }
}

/// Batches one after the other have the rows of each, in their order.
pub proof fn law_batches_follow_each_other(batches: Seq<Batch>, more: Seq<Batch>, batch: Batch)
    ensures
        rows_of(batches + more) == rows_of(batches) + rows_of(more),
        rows_of(seq![batch]) == batch_rows(batch),
        rows_of(Seq::empty()).len() == 0,
{
    lemma_rows_of_concat(batches, more);
    lemma_rows_of_one(batch);
}

} // verus!
