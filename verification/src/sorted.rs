//! Sorting rows in memory, within a budget.

use crate::batch::{
    all_wide, batch_rows, batch_width, column_count, column_taken, concat_or_empty, joined_from,
    makes_batch, memory_size, project_columns, project_rows, row_count, rows_of, slice_rows,
    take_rows, Batch, BatchError,
};
use crate::nested::{can_count_columns, columns_counted, lemma_part_fits};
use crate::order::{
    is_sorted_order, key_count, keys_of_column, law_keys_order_as_values, lemma_named_somewhere,
    names_rows_once, sorted_order, SortKeys,
};
use crate::page::{smaller, PAGE_ROWS};
use crate::scalar::{column_rows, null_at, scalar_order, value_at, Column};
use crate::sort::{NullOrder, SortBudget, SortDirection, SortSpec};
use vstd::prelude::*;

verus! {

/// The rows to sort do not fit in the budget.
#[derive(Clone, Copy, Debug, PartialEq, Eq, Structural)]
pub struct OverBudget {
    pub max_rows: usize,
    pub max_bytes: usize,
}

/// The smaller of `n` and the greatest size there is.
pub open spec fn saturated(n: int) -> int {
    smaller(n, usize::MAX as int)
}

/// Whether a sort of `rows` rows in `bytes` bytes is within the budget: the
/// input, its copy and the output, and eight bytes per row, count.
pub open spec fn sort_fits(budget: SortBudget, rows: int, bytes: int) -> bool {
    rows <= budget.rows_bound() && saturated(saturated(bytes * 3) + saturated(rows * 8))
        <= budget.bytes_bound()
}

/// Whether a sort of `rows` rows stays within the budget when `bytes` more bytes are
/// charged.
pub open spec fn charge_fits(budget: SortBudget, rows: nat, charged: usize, bytes: usize) -> bool {
    sort_fits(budget, saturated(rows as int), saturated(charged + bytes))
}

/// Where the bytes are not bounded, the number of rows alone decides.
pub proof fn law_unbounded_bytes_never_refuse(
    budget: SortBudget,
    rows: nat,
    charged: usize,
    bytes: usize,
)
    requires
        budget.bytes_bound() == usize::MAX,
    ensures
        charge_fits(budget, rows, charged, bytes) <==> saturated(rows as int)
            <= budget.rows_bound(),
{
}

fn saturating_mul(n: usize, factor: usize) -> (product: usize)
    ensures
        product == saturated(n * factor),
{
    match n.checked_mul(factor) {
        Some(product) => product,
        None => usize::MAX,
    }
}

/// Whether the source can be sorted at all, going by its row count.
pub fn source_within_budget(budget: SortBudget, source_rows: u64) -> (within: bool)
    ensures
        within == (source_rows <= budget.rows_bound()),
{
    source_rows <= budget.max_rows() as u64
}

/// Collects the batches of a sort.
#[derive(Debug)]
pub struct SortInput {
    budget: SortBudget,
    rows: usize,
    bytes: usize,
    batches: Vec<Batch>,
}

impl SortInput {
    /// The batches collected so far.
    pub closed spec fn collected(&self) -> Seq<Batch> {
        self.batches@
    }

    /// The bytes that they are charged for.
    pub closed spec fn charged(&self) -> usize {
        self.bytes
    }

    /// The budget in force.
    pub closed spec fn limit(&self) -> SortBudget {
        self.budget
    }

    /// The batches are within the budget, none is empty, and all have the same
    /// columns.
    pub closed spec fn wf(&self) -> bool {
        &&& self.rows == saturated(rows_of(self.batches@).len() as int)
        &&& self.batches@.len() > 0 ==> sort_fits(self.budget, self.rows as int, self.bytes as int)
            && all_wide(self.batches@, batch_width(self.batches@[0]))
        &&& forall|i: int| 0 <= i < self.batches@.len() ==> batch_rows(
            #[trigger] self.batches@[i],
        ).len() > 0
    }

    /// Rows are there as soon as a batch is.
    pub(crate) proof fn lemma_batches_hold_rows(&self)
        requires
            self.wf(),
        ensures
            self.collected().len() == 0 <==> rows_of(self.collected()).len() == 0,
    {
        if self.batches@.len() > 0 {
            assert(batch_rows(self.batches@.last()).len() > 0);
        }
    }

    pub fn new(budget: SortBudget) -> (input: Self)
        ensures
            input.wf(),
            input.collected().len() == 0,
            input.charged() == 0,
            input.limit() == budget,
    {
        SortInput { budget, rows: 0, bytes: 0, batches: Vec::new() }
    }

    /// Whether a batch has as many columns as those that were collected.
    pub fn accepts(&self, batch: &Batch) -> (same: bool)
        ensures
            same == (self.collected().len() > 0 ==> batch_width(*batch) == batch_width(
                self.collected()[0],
            )),
    {
        self.batches.len() == 0 || column_count(batch) == column_count(&self.batches[0])
    }

    /// Takes a batch in that is charged for `bytes` bytes. A batch without rows
    /// is left out.
    pub fn take_in(&mut self, batch: Batch, bytes: usize) -> (result: Result<(), OverBudget>)
        requires
            old(self).wf(),
            old(self).collected().len() > 0 ==> batch_width(batch) == batch_width(
                old(self).collected()[0],
            ),
        ensures
            final(self).wf(),
            final(self).limit() == old(self).limit(),
            batch_rows(batch).len() == 0 ==> result is Ok && final(self).collected()
                == old(self).collected() && final(self).charged() == old(self).charged(),
            batch_rows(batch).len() > 0 ==> (result is Ok <==> charge_fits(
                old(self).limit(),
                rows_of(old(self).collected()).len() + batch_rows(batch).len(),
                old(self).charged(),
                bytes,
            )),
            batch_rows(batch).len() > 0 && result is Ok ==> final(self).collected() == old(
                self,
            ).collected().push(batch) && final(self).charged() == saturated(
                old(self).charged() + bytes,
            ),
            result matches Err(error) ==> final(self).collected() == old(self).collected()
                && final(self).charged() == old(self).charged() && error == (OverBudget {
                max_rows: old(self).limit().rows_bound(),
                max_bytes: old(self).limit().bytes_bound(),
            }),
    {
        let count: usize = row_count(&batch);
        if count == 0 {
            return Ok(());
        }
        let ghost before = self.batches@;
        let next_rows: usize = self.rows.saturating_add(count);
        let next_bytes: usize = self.bytes.saturating_add(bytes);
        let workspace: usize = saturating_mul(next_bytes, 3).saturating_add(
            saturating_mul(next_rows, 8),
        );
        let max_rows: usize = self.budget.max_rows();
        let max_bytes: usize = self.budget.max_bytes();
        if next_rows > max_rows || workspace > max_bytes {
            return Err(OverBudget { max_rows, max_bytes });
        }
        self.rows = next_rows;
        self.bytes = next_bytes;
        self.batches.push(batch);
        proof {
            assert(self.batches@.drop_last() =~= before);
        }
        Ok(())
    }

    /// Takes a batch in, charged for its estimated size in memory: for some number of
    /// bytes, it is taken in exactly where they are within the budget.
    pub fn push(&mut self, batch: Batch) -> (result: Result<(), OverBudget>)
        requires
            old(self).wf(),
            old(self).collected().len() > 0 ==> batch_width(batch) == batch_width(
                old(self).collected()[0],
            ),
        ensures
            final(self).wf(),
            final(self).limit() == old(self).limit(),
            batch_rows(batch).len() == 0 ==> result is Ok && final(self).collected()
                == old(self).collected() && final(self).charged() == old(self).charged(),
            batch_rows(batch).len() > 0 ==> exists|bytes: usize|
                (result is Ok <==> #[trigger] charge_fits(
                    old(self).limit(),
                    rows_of(old(self).collected()).len() + batch_rows(batch).len(),
                    old(self).charged(),
                    bytes,
                )) && (result is Ok ==> final(self).charged() == saturated(
                    old(self).charged() + bytes,
                )),
            batch_rows(batch).len() > 0 && result is Ok ==> final(self).collected() == old(
                self,
            ).collected().push(batch),
            result matches Err(error) ==> batch_rows(batch).len() > 0 && final(self).collected()
                == old(self).collected() && final(self).charged() == old(self).charged() && error
                == (OverBudget {
                max_rows: old(self).limit().rows_bound(),
                max_bytes: old(self).limit().bytes_bound(),
            }),
    {
        let bytes: usize = memory_size(&batch);
        self.take_in(batch, bytes)
    }

    /// All rows as one batch; none where there is no row.
    pub fn finish(self) -> (result: Result<Option<Batch>, BatchError>)
        requires
            self.wf(),
        ensures
            joined_from(result, self.collected()),
    {
        concat_or_empty(self.batches)
    }
}

/// Whether all batches but the last hold a page of rows, and the last one at
/// most that and at least one.
pub open spec fn in_pages(batches: Seq<Batch>) -> bool {
    forall|i: int|
        0 <= i < batches.len() ==> {
            &&& 1 <= batch_rows(#[trigger] batches[i]).len() <= PAGE_ROWS
            &&& i < batches.len() - 1 ==> batch_rows(batches[i]).len() == PAGE_ROWS
        }
}

/// The rows at `order`, in that order.
pub open spec fn reordered<T>(rows: Seq<T>, order: Seq<u32>) -> Seq<T> {
    order.map_values(|row: u32| rows[row as int])
}

/// Cuts a batch into pages.
pub fn cut_into_pages(batch: &Batch) -> (pages: Vec<Batch>)
    ensures
        rows_of(pages@) == batch_rows(*batch),
        in_pages(pages@),
        all_wide(pages@, batch_width(*batch)),
{
    let ghost rows = batch_rows(*batch);
    let total: usize = row_count(batch);
    let page: usize = PAGE_ROWS as usize;
    let mut pages: Vec<Batch> = Vec::new();
    let mut first: usize = 0;
    assert(rows_of(pages@) =~= rows.take(0));
    while first < total
        invariant
            rows == batch_rows(*batch),
            total == rows.len(),
            page == PAGE_ROWS,
            first <= total,
            rows_of(pages@) == rows.take(first as int),
            all_wide(pages@, batch_width(*batch)),
            first < total ==> first == pages@.len() * PAGE_ROWS,
            in_pages(pages@),
            first < total ==> forall|i: int|
                0 <= i < pages@.len() ==> batch_rows(#[trigger] pages@[i]).len() == PAGE_ROWS,
        decreases total - first,
    {
        let left: usize = total - first;
        let count: usize = if left < page {
            left
        } else {
            page
        };
        let ghost before = pages@;
        let part = slice_rows(batch, first, count);
        pages.push(part);
        proof {
            assert(pages@.drop_last() =~= before);
            assert(rows.take(first as int) + rows.subrange(first as int, first + count)
                =~= rows.take(first + count));
        }
        first = first + count;
    }
    assert(rows.take(first as int) =~= rows);
    pages
}

/// Whether `order` is the order of the rows under the sort key.
pub open spec fn sorts_by(order: Seq<u32>, keys: SortKeys, spec: SortSpec) -> bool {
    is_sorted_order(
        order,
        keys,
        spec.direction == SortDirection::Descending,
        spec.nulls == NullOrder::First,
    )
}

/// Whether the rows of `input` at `order` can be taken, in a batch of the columns at
/// `columns`: these make a batch, what is below them can be counted, and Arrow takes
/// the rows of each.
pub open spec fn can_reorder(input: Batch, columns: Seq<usize>, order: Seq<u32>) -> bool {
    makes_batch(input, columns) && columns_counted(input, columns) && forall|i: int|
        0 <= i < columns.len() ==> column_taken(input, #[trigger] columns[i] as int, order)
}

/// Sorts the rows of `input` by `keys`, keeps the columns at `output_positions`
/// and cuts the result into pages. It fails exactly where no batch can be made of
/// those columns, where there is too much below them, or where the rows of one of them
/// cannot be taken in that order.
pub fn sorted_batches(
    input: &Batch,
    keys: &SortKeys,
    spec: SortSpec,
    output_positions: &Vec<usize>,
) -> (result: Result<Vec<Batch>, BatchError>)
    requires
        key_count(*keys) == batch_rows(*input).len(),
        key_count(*keys) <= u32::MAX,
        forall|i: int|
            0 <= i < output_positions@.len() ==> output_positions@[i] < batch_width(*input),
    ensures
        exists|order: Seq<u32>|
            #[trigger] sorts_by(order, *keys, spec) && match result {
                Ok(pages) => {
                    &&& can_reorder(*input, output_positions@, order)
                    &&& in_pages(pages@)
                    &&& all_wide(pages@, output_positions@.len())
                    &&& rows_of(pages@) == reordered(
                        project_rows(batch_rows(*input), output_positions@),
                        order,
                    )
                },
                Err(BatchError::TooLarge) => makes_batch(*input, output_positions@) && !columns_counted(
                    *input,
                    output_positions@,
                ),
                Err(BatchError::Refused(_)) => !can_reorder(*input, output_positions@, order) && (
                makes_batch(*input, output_positions@) ==> columns_counted(*input, output_positions@)),
            },
{
    let order = match sorted_order(keys, spec) {
        Ok(order) => order,
        Err(error) => return Err(BatchError::Refused(error)),
    };
    assert(sorts_by(order@, *keys, spec));
    let part = match project_columns(input, output_positions) {
        Ok(part) => part,
        Err(error) => return Err(BatchError::Refused(error)),
    };
    if !can_count_columns(input, output_positions) {
        return Err(BatchError::TooLarge);
    }
    proof {
        lemma_part_fits(*input, output_positions@, part);
    }
    let taken = match take_rows(&part, &order) {
        Ok(taken) => taken,
        Err(error) => return Err(BatchError::Refused(error)),
    };
    let pages = cut_into_pages(&taken);
    proof {
        let rows = project_rows(batch_rows(*input), output_positions@);
        assert(rows_of(pages@) =~= reordered(rows, order@));
        assert forall|i: int| 0 <= i < output_positions@.len() implies column_taken(
            *input,
            #[trigger] output_positions@[i] as int,
            order@,
        ) by {
            assert(column_taken(part, i, order@));
        }
    }
    Ok(pages)
}

/// What is collected for a sort stays within its budget, in rows and in the bytes
/// that they are charged for.
pub proof fn law_sort_input_is_bounded(input: &SortInput)
    requires
        input.wf(),
        input.collected().len() > 0,
        input.limit().rows_bound() < usize::MAX,
        input.limit().bytes_bound() < usize::MAX,
    ensures
        rows_of(input.collected()).len() <= input.limit().rows_bound(),
        input.charged() * 3 + rows_of(input.collected()).len() * 8 <= input.limit().bytes_bound(),
{
}

/// Sorting loses no row and makes up none.
pub proof fn law_sorting_keeps_rows<T>(rows: Seq<T>, order: Seq<u32>)
    requires
        rows.len() <= u32::MAX,
        names_rows_once(order, rows.len()),
    ensures
        reordered(rows, order).to_multiset() == rows.to_multiset(),
    decreases rows.len(),
{
    let sorted = reordered(rows, order);
    if rows.len() == 0 {
        assert(sorted =~= rows);
    } else {
        let fewer = rows.drop_last();
        let at = lemma_named_somewhere(order, rows.len(), (rows.len() - 1) as u32);
        let rest = order.remove(at);
        assert forall|k: int| 0 <= k < rest.len() implies rest[k] < fewer.len() by {
            let place = if k < at {
                k
            } else {
                k + 1
            };
            assert(rest[k] == order[place]);
            assert(order[place] != order[at]);
        }
        assert(rest.no_duplicates());
        law_sorting_keeps_rows(fewer, rest);
        assert(sorted.remove(at) =~= reordered(fewer, rest));
        assert(sorted[at] == rows.last());
        assert(fewer.push(rows.last()) =~= rows);
        vstd::seq_lib::to_multiset_build(fewer, rows.last());
        vstd::seq_lib::to_multiset_remove(sorted, at);
        vstd::seq_lib::to_multiset_contains(sorted, rows.last());
        assert(sorted.contains(rows.last()));
        assert(sorted.to_multiset() =~= rows.to_multiset());
    }
}

/// Rows come out in the order that was asked for. Of any two, in the order in which they
/// come out: nulls stand together, before all values or behind them as asked; of two values
/// the first is not the greater one upwards, and not the lesser one downwards; and rows that
/// the column does not tell apart stay as they were in the file.
pub proof fn law_rows_come_out_in_order(
    order: Seq<u32>,
    keys: SortKeys,
    column: Column,
    spec: SortSpec,
    a: int,
    b: int,
)
    requires
        !(column is Other),
        keys_of_column(keys, column),
        sorts_by(order, keys, spec),
        0 <= a < b < order.len(),
    ensures
        order.len() == column_rows(column),
        order[a] != order[b],
        order[a] < column_rows(column) && order[b] < column_rows(column),
        ({
            let (i, j) = (order[a] as int, order[b] as int);
            let (first, second) = (value_at(column, i), value_at(column, j));
            &&& spec.nulls is First && null_at(column, j) ==> null_at(column, i)
            &&& spec.nulls is Last && null_at(column, i) ==> null_at(column, j)
            &&& null_at(column, i) && null_at(column, j) ==> i < j
            &&& !null_at(column, i) && !null_at(column, j) ==> {
                &&& spec.direction is Ascending ==> !(scalar_order(first, second) is Greater)
                &&& spec.direction is Descending ==> !(scalar_order(first, second) is Less)
                &&& scalar_order(first, second) is Equal ==> i < j
            }
        }),
{
    let (i, j) = (order[a] as int, order[b] as int);
    assert(crate::order::key_of_row(keys, column, i));
    assert(crate::order::key_of_row(keys, column, j));
    if !null_at(column, i) && !null_at(column, j) {
        law_keys_order_as_values(keys, column, i, j);
    }
}

/// Every row comes out: each stands at some place of the order.
pub proof fn law_every_row_comes_out(order: Seq<u32>, keys: SortKeys, spec: SortSpec, row: u32) -> (
    at: int)
    requires
        key_count(keys) <= u32::MAX,
        sorts_by(order, keys, spec),
        row < key_count(keys),
    ensures
        0 <= at < order.len(),
        order[at] == row,
{
    lemma_named_somewhere(order, key_count(keys), row)
}

/// The row that comes out at a place is, cell for cell, the one that the order names there,
/// with the columns that are asked for in the order in which they are asked for.
pub proof fn law_reordered_rows_are_those_named(
    rows: Seq<Seq<Seq<u8>>>,
    columns: Seq<usize>,
    order: Seq<u32>,
    at: int,
    i: int,
)
    requires
        0 <= at < order.len(),
        order[at] < rows.len(),
        0 <= i < columns.len(),
    ensures
        reordered(project_rows(rows, columns), order).len() == order.len(),
        reordered(project_rows(rows, columns), order)[at].len() == columns.len(),
        reordered(project_rows(rows, columns), order)[at][i] == rows[order[at] as int][columns[i] as int],
{
}

} // verus!
