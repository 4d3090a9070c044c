//! Reading windows of rows: what to read, and which of the rows read belong to
//! the result.

use crate::batch::{
    all_wide, batch_rows, batch_width, column_thinned, concat_or_empty, filter_rows, has_columns,
    joined_from, lemma_selected_len, makes_batch, project_columns, project_rows, row_count, rows_of,
    selected_rows, slice_rows, Batch,
    BatchError,
};
use crate::metadata::{reaches_into, DatasetMetadata, WindowPastEnd};
use crate::nested::{batch_counted, can_count};
use crate::page::smaller;
use crate::projection::{
    contains_column, position_in, projection_fault, strictly_increasing, Projection,
    ProjectionError,
};
use vstd::prelude::*;

verus! {

/// Which row groups to read, how many of their rows to skip, and how many rows
/// to take then.
#[derive(Debug, PartialEq, Eq)]
pub struct WindowPlan {
    pub row_groups: Vec<usize>,
    pub skip: usize,
    pub take: usize,
}

/// Why a window cannot be read.
#[derive(Clone, Copy, Debug, PartialEq, Eq, Structural)]
pub enum WindowError {
    PastEnd(WindowPastEnd),
    /// The rows to skip do not fit in memory sizes.
    SkipTooLarge,
}

impl DatasetMetadata {
    /// What to read for a window of rows; nothing where it has no row.
    pub fn plan_window(&self, first_row: u64, row_count: usize) -> (result: Result<
        Option<WindowPlan>,
        WindowError,
    >)
        requires
            self.wf(),
        ensures
            match result {
                Err(WindowError::PastEnd(error)) => first_row > self.row_count && error == (
                WindowPastEnd { first_row, row_count: self.row_count }),
                Err(WindowError::SkipTooLarge) => first_row < self.row_count && row_count > 0
                    && first_row > usize::MAX,
                Ok(None) => first_row <= self.row_count && (first_row == self.row_count
                    || row_count == 0),
                Ok(Some(plan)) => {
                    &&& first_row < self.row_count && row_count > 0
                    &&& plan.take == smaller(self.row_count - first_row, row_count as int)
                    &&& strictly_increasing(plan.row_groups@)
                    &&& forall|k: usize|
                        plan.row_groups@.contains(k) <==> k < self.row_groups@.len()
                            && reaches_into(
                            self.row_groups@[k as int],
                            first_row as int,
                            first_row + plan.take,
                        )
                    &&& plan.row_groups@.len() > 0
                    &&& self.row_groups@[plan.row_groups@[0] as int].first_row + plan.skip
                        == first_row
                },
            },
    {
        let rows: usize = match self.validate_window(first_row, row_count) {
            Ok(rows) => rows,
            Err(error) => return Err(WindowError::PastEnd(error)),
        };
        if rows == 0 {
            return Ok(None);
        }
        let row_groups = self.overlapping_row_group_indexes(first_row, rows);
        assert(row_groups@.contains(row_groups@[0]));
        let first_selected: u64 = self.row_groups[row_groups[0]].first_row;
        let skip: u64 = first_row - first_selected;
        if skip > usize::MAX as u64 {
            return Err(WindowError::SkipTooLarge);
        }
        Ok(Some(WindowPlan { row_groups, skip: skip as usize, take: rows }))
    }
}

/// The columns of `base`, then those of `extra` that are not there yet.
pub open spec fn with_missing(base: Seq<usize>, extra: Seq<usize>) -> Seq<usize>
    decreases extra.len(),
{
    if extra.len() == 0 {
        base
    } else {
        let so_far = with_missing(base, extra.drop_last());
        if so_far.contains(extra.last()) {
            so_far
        } else {
            so_far.push(extra.last())
        }
    }
}

/// Every column of `base` and `extra` is there, and `base` comes first.
pub proof fn lemma_with_missing(base: Seq<usize>, extra: Seq<usize>)
    ensures
        base.len() <= with_missing(base, extra).len(),
        with_missing(base, extra).take(base.len() as int) == base,
        forall|i: int| 0 <= i < extra.len() ==> with_missing(base, extra).contains(extra[i]),
    decreases extra.len(),
{
    if extra.len() == 0 {
        assert(base.take(base.len() as int) =~= base);
    } else {
        lemma_with_missing(base, extra.drop_last());
        let so_far = with_missing(base, extra.drop_last());
        let all = with_missing(base, extra);
        assert(all.take(base.len() as int) =~= so_far.take(base.len() as int));
        assert forall|i: int| 0 <= i < extra.len() implies all.contains(extra[i]) by {
            if i < extra.len() - 1 {
                assert(so_far.contains(extra.drop_last()[i]));
                let k = choose|k: int| 0 <= k < so_far.len() && so_far[k] == extra[i];
                assert(all[k] == extra[i]);
            } else if so_far.contains(extra.last()) {
            } else {
                assert(all[so_far.len() as int] == extra.last());
            }
        }
    }
}

/// Adds the columns of `extra` that are not there yet.
pub fn add_missing(base: Vec<usize>, extra: &Vec<usize>) -> (columns: Vec<usize>)
    ensures
        columns@ == with_missing(base@, extra@),
{
    let mut columns = base;
    let mut i: usize = 0;
    assert(extra@.take(0) =~= Seq::<usize>::empty());
    while i < extra.len()
        invariant
            i <= extra@.len(),
            columns@ == with_missing(base@, extra@.take(i as int)),
        decreases extra@.len() - i,
    {
        assert(extra@.take(i + 1).drop_last() =~= extra@.take(i as int));
        if !contains_column(&columns, extra[i]) {
            columns.push(extra[i]);
        }
        i = i + 1;
    }
    assert(extra@.take(i as int) =~= extra@);
    columns
}

/// Whether the values at `positions` in `read` are `wanted`.
pub open spec fn points_at(positions: Seq<usize>, read: Seq<usize>, wanted: Seq<usize>) -> bool {
    positions.len() == wanted.len() && forall|i: int|
        0 <= i < positions.len() ==> #[trigger] positions[i] < read.len()
            && read[positions[i] as int] == wanted[i]
}

/// What to decode when a read needs more columns than it returns.
#[derive(Debug)]
pub struct ReadColumns {
    pub projection: Projection,
    /// Where the returned columns stand among the decoded ones.
    pub output_positions: Vec<usize>,
    /// Where the other columns asked for stand among the decoded ones.
    pub extra_positions: Vec<usize>,
}

fn positions_of(read: &Vec<usize>, wanted: &Vec<usize>) -> (positions: Vec<usize>)
    requires
        forall|i: int| 0 <= i < wanted@.len() ==> read@.contains(#[trigger] wanted@[i]),
    ensures
        points_at(positions@, read@, wanted@),
{
    let mut positions: Vec<usize> = Vec::new();
    let mut i: usize = 0;
    while i < wanted.len()
        invariant
            i <= wanted@.len(),
            forall|k: int| 0 <= k < wanted@.len() ==> read@.contains(#[trigger] wanted@[k]),
            positions@.len() == i,
            forall|k: int|
                0 <= k < i ==> #[trigger] positions@[k] < read@.len() && read@[positions@[k] as int]
                    == wanted@[k],
        decreases wanted@.len() - i,
    {
        assert(read@.contains(wanted@[i as int]));
        match position_in(read, wanted[i]) {
            Some(position) => positions.push(position),
            None => {
                assert(false);
            },
        }
        i = i + 1;
    }
    positions
}

/// What to decode for a read that returns `projection` and needs `extra` too.
pub fn plan_columns(projection: &Projection, extra: &Vec<usize>, column_count: usize) -> (result:
    Result<ReadColumns, ProjectionError>)
    requires
        projection@.len() + extra@.len() > 0,
    ensures
        match result {
            Ok(plan) => {
                &&& projection_fault(with_missing(projection@, extra@), column_count as nat) is None
                &&& plan.projection@ == with_missing(projection@, extra@)
                &&& points_at(plan.output_positions@, plan.projection@, projection@)
                &&& points_at(plan.extra_positions@, plan.projection@, extra@)
            },
            Err(error) => projection_fault(
                with_missing(projection@, extra@),
                column_count as nat,
            ) == Some(error),
        },
{
    let base = projection.to_vec();
    let columns = add_missing(projection.to_vec(), extra);
    let ghost read = columns@;
    proof {
        lemma_with_missing(projection@, extra@);
        assert forall|i: int| 0 <= i < base@.len() implies read.contains(#[trigger] base@[i]) by {
            assert(read.take(base@.len() as int)[i] == base@[i]);
            assert(read[i] == base@[i]);
        }
        if read.len() == 0 {
            if extra@.len() > 0 {
                assert(read.contains(extra@[0]));
            }
        }
    }
    let output_positions = positions_of(&columns, &base);
    let extra_positions = positions_of(&columns, extra);
    match Projection::columns(columns, column_count) {
        Ok(projection) => Ok(ReadColumns { projection, output_positions, extra_positions }),
        Err(error) => Err(error),
    }
}

// ---------------------------------------------------------------------------
// A window of the rows that pass a filter
// ---------------------------------------------------------------------------

/// At most `wanted` of `rows`, from row `first` on.
pub open spec fn window_of<T>(rows: Seq<T>, first: int, wanted: int) -> Seq<T> {
    if first >= rows.len() {
        Seq::empty()
    } else {
        rows.subrange(first, smaller(first + wanted, rows.len() as int))
    }
}

/// Collects a window of the rows that pass a filter, batch by batch.
pub struct FilteredWindow {
    first_match: u64,
    wanted: usize,
    skipped: u64,
    remaining: usize,
    batches: Vec<Batch>,
    output_positions: Vec<usize>,
    matched: Ghost<Seq<Seq<Seq<u8>>>>,
}

impl FilteredWindow {
    /// The rows that passed so far, in order.
    pub closed spec fn passed(&self) -> Seq<Seq<Seq<u8>>> {
        self.matched@
    }

    /// The number of the first row of the window among those that pass.
    pub closed spec fn start(&self) -> int {
        self.first_match as int
    }

    /// The size of the window.
    pub closed spec fn size(&self) -> int {
        self.wanted as int
    }

    /// Where the returned columns stand among those of the batches.
    pub closed spec fn positions(&self) -> Seq<usize> {
        self.output_positions@
    }

    /// Whether the window is full.
    pub open spec fn full(&self) -> bool {
        window_of(self.passed(), self.start(), self.size()).len() == self.size()
    }

    /// The batches that hold the rows of the window that were found so far.
    pub closed spec fn kept(&self) -> Seq<Batch> {
        self.batches@
    }

    /// Whether some of the next `rows` rows that pass belong to a window that is not
    /// full.
    pub open spec fn reached_by(&self, rows: nat) -> bool {
        rows > 0 && self.passed().len() + rows > self.start()
    }

    /// The rows of the window that were found so far, reduced to the returned
    /// columns.
    pub open spec fn found(&self) -> Seq<Seq<Seq<u8>>> {
        project_rows(window_of(self.passed(), self.start(), self.size()), self.positions())
    }

    pub closed spec fn wf(&self) -> bool {
        &&& self.skipped == self.matched@.len()
        &&& rows_of(self.batches@) == self.found()
        &&& all_wide(self.batches@, self.output_positions@.len())
        &&& forall|i: int|
            0 <= i < self.batches@.len() ==> batch_rows(#[trigger] self.batches@[i]).len() > 0
        &&& self.remaining + window_of(
            self.matched@,
            self.first_match as int,
            self.wanted as int,
        ).len() == self.wanted
    }

    /// A window of `wanted` rows, from row `first_match` of those that pass on.
    pub fn new(first_match: u64, wanted: usize, output_positions: Vec<usize>) -> (window: Self)
        ensures
            window.wf(),
            window.passed().len() == 0,
            window.kept().len() == 0,
            window.start() == first_match,
            window.size() == wanted,
            window.positions() == output_positions@,
    {
        let window = FilteredWindow {
            first_match,
            wanted,
            skipped: 0,
            remaining: wanted,
            batches: Vec::new(),
            output_positions,
            matched: Ghost(Seq::empty()),
        };
        assert(rows_of(window.batches@) =~= window.found());
        window
    }

    pub fn is_full(&self) -> (full: bool)
        requires
            self.wf(),
        ensures
            full == self.full(),
    {
        self.remaining == 0
    }

    /// Whether the rows of a batch can be counted, and it has the returned columns.
    pub fn can_take(&self, batch: &Batch) -> (can: bool)
        requires
            self.wf(),
        ensures
            can == (self.passed().len() + batch_rows(*batch).len() <= u64::MAX && forall|i: int|
                0 <= i < self.positions().len() ==> #[trigger] self.positions()[i] < batch_width(
                    *batch,
                )),
    {
        row_count(batch) as u64 <= u64::MAX - self.skipped && has_columns(
            batch,
            &self.output_positions,
        )
    }

    /// Takes the rows of `batch` that `mask` selects. Nothing changes where there is too
    /// much below its columns, or where the returned columns of the rows that belong to
    /// the window make no batch.
    pub fn offer(&mut self, batch: &Batch, mask: &Vec<bool>) -> (result: Result<(), BatchError>)
        requires
            old(self).wf(),
            !old(self).full(),
            mask@.len() == batch_rows(*batch).len(),
            forall|i: int|
                0 <= i < old(self).positions().len() ==> old(self).positions()[i] < batch_width(
                    *batch,
                ),
            old(self).passed().len() + batch_rows(*batch).len() <= u64::MAX,
        ensures
            final(self).wf(),
            final(self).start() == old(self).start(),
            final(self).size() == old(self).size(),
            final(self).positions() == old(self).positions(),
            final(self).passed() == if result is Ok {
                old(self).passed() + selected_rows(batch_rows(*batch), mask@)
            } else {
                old(self).passed()
            },
            result == Err::<(), BatchError>(BatchError::TooLarge) <==> !batch_counted(*batch),
            batch_counted(*batch) && !old(self).reached_by(
                selected_rows(batch_rows(*batch), mask@).len(),
            ) ==> result is Ok,
            old(self).reached_by(selected_rows(batch_rows(*batch), mask@).len()) && old(
                self,
            ).positions().len() == 0 ==> result is Err,
            batch_counted(*batch) && selected_rows(batch_rows(*batch), mask@).len() == batch_rows(
                *batch,
            ).len() && makes_batch(*batch, old(self).positions()) ==> result is Ok,
            batch_counted(*batch) && old(self).positions().len() > 0 && (forall|i: int|
                0 <= i < old(self).positions().len() ==> column_thinned(
                    *batch,
                    #[trigger] old(self).positions()[i] as int,
                    mask@,
                )) ==> result is Ok,
            result is Ok && old(self).reached_by(selected_rows(batch_rows(*batch), mask@).len())
                ==> final(self).kept().len() == old(self).kept().len() + 1
                && final(self).kept().drop_last() == old(self).kept(),
            !(result is Ok && old(self).reached_by(
                selected_rows(batch_rows(*batch), mask@).len(),
            )) ==> final(self).kept() == old(self).kept(),
    {
        proof {
            lemma_selected_len(batch_rows(*batch), mask@);
        }
        if !can_count(batch) {
            return Err(BatchError::TooLarge);
        }
        match filter_rows(batch, mask) {
            Ok(kept) => self.take_passed(&kept),
            Err(error) => Err(BatchError::Refused(error)),
        }
    }

    /// Takes the rows of `kept`, which all passed. Nothing changes where the returned
    /// columns of those that belong to the window make no batch.
    pub fn take_passed(&mut self, kept: &Batch) -> (result: Result<(), BatchError>)
        requires
            old(self).wf(),
            !old(self).full(),
            forall|i: int|
                0 <= i < old(self).positions().len() ==> old(self).positions()[i] < batch_width(
                    *kept,
                ),
            old(self).passed().len() + batch_rows(*kept).len() <= u64::MAX,
        ensures
            final(self).wf(),
            final(self).start() == old(self).start(),
            final(self).size() == old(self).size(),
            final(self).positions() == old(self).positions(),
            final(self).passed() == if result is Ok {
                old(self).passed() + batch_rows(*kept)
            } else {
                old(self).passed()
            },
            !old(self).reached_by(batch_rows(*kept).len()) ==> result is Ok,
            old(self).reached_by(batch_rows(*kept).len()) && old(self).positions().len() == 0
                ==> result is Err,
            makes_batch(*kept, old(self).positions()) ==> result is Ok,
            result matches Err(error) ==> error is Refused,
            result is Ok && old(self).reached_by(batch_rows(*kept).len())
                ==> final(self).kept().len() == old(self).kept().len() + 1
                && final(self).kept().drop_last() == old(self).kept(),
            !(result is Ok && old(self).reached_by(batch_rows(*kept).len())) ==> final(self).kept()
                == old(self).kept(),
    {
        let ghost passed = self.matched@;
        let ghost first = self.first_match as int;
        let ghost wanted = self.wanted as int;
        let ghost positions = self.output_positions@;
        let rows: usize = row_count(kept);
        let ghost more = batch_rows(*kept);
        if rows == 0 {
            assert(passed + more =~= passed);
            return Ok(());
        }
        if self.skipped + rows as u64 <= self.first_match {
            self.skipped = self.skipped + rows as u64;
            self.matched = Ghost(passed + more);
            return Ok(());
        }
        let start: usize = if self.first_match > self.skipped {
            (self.first_match - self.skipped) as usize
        } else {
            0
        };
        let available: usize = rows - start;
        let take: usize = if self.remaining < available {
            self.remaining
        } else {
            available
        };
        let page = slice_rows(kept, start, take);
        let part = match project_columns(&page, &self.output_positions) {
            Ok(part) => part,
            Err(error) => return Err(BatchError::Refused(error)),
        };
        let ghost before = self.batches@;
        let ghost old_found = self.found();
        self.batches.push(part);
        self.remaining = self.remaining - take;
        self.skipped = self.skipped + rows as u64;
        self.matched = Ghost(passed + more);
        proof {
            let all = passed + more;
            let old_window = window_of(passed, first, wanted);
            let new_window = window_of(all, first, wanted);
            let piece = more.subrange(start as int, start + take);
            assert(new_window =~= old_window + piece);
            assert(self.found() =~= old_found + project_rows(piece, positions));
            assert(self.batches@.drop_last() =~= before);
            assert(self.batches@.last() == part);
            assert(rows_of(self.batches@) =~= rows_of(before) + batch_rows(part));
            assert(batch_rows(part) =~= project_rows(piece, positions));
        }
        Ok(())
    }

    /// The rows of the window as one batch; none where there is no such row. Rows
    /// that were found in one batch come back in any case.
    pub fn finish(self) -> (result: Result<Option<Batch>, BatchError>)
        requires
            self.wf(),
        ensures
            joined_from(result, self.kept()),
            result matches Ok(Some(batch)) ==> batch_rows(batch) == self.found() && batch_width(
                batch,
            ) == self.positions().len(),
            self.found().len() == 0 <==> result matches Ok(None),
    {
        proof {
            if self.batches@.len() > 0 {
                assert(batch_rows(self.batches@.last()).len() > 0);
            }
        }
        concat_or_empty(self.batches)
    }
}

/// A window takes up where the rows before it end: the windows from row 0, `wanted`,
/// twice `wanted` and so on give all rows, none of them twice.
pub proof fn law_windows_follow_each_other<T>(rows: Seq<T>, first: int, wanted: int)
    requires
        0 <= first,
        0 <= wanted,
    ensures
        rows.take(smaller(first, rows.len() as int)) + window_of(rows, first, wanted) == rows.take(
            smaller(first + wanted, rows.len() as int),
        ),
{
    assert(rows.take(smaller(first, rows.len() as int)) + window_of(rows, first, wanted)
        =~= rows.take(smaller(first + wanted, rows.len() as int)));
}

/// A window starts at the row that is asked for and goes on without a gap: it ends where as
/// many rows are there as are wanted, or where the rows end.
pub proof fn law_window_is_where_it_is_asked_for<T>(rows: Seq<T>, first: int, wanted: int, i: int)
    requires
        0 <= first,
        0 <= wanted,
    ensures
        window_of(rows, first, wanted).len() <= wanted,
        window_of(rows, first, wanted).len() < wanted ==> first + window_of(
            rows,
            first,
            wanted,
        ).len() >= rows.len(),
        first < rows.len() && wanted > 0 ==> window_of(rows, first, wanted).len() > 0,
        0 <= i < window_of(rows, first, wanted).len() ==> first + i < rows.len() && window_of(
            rows,
            first,
            wanted,
        )[i] == rows[first + i],
{
}

/// What is decoded is what is returned and what else is needed, and nothing more: the
/// returned columns first, each other column once.
pub proof fn law_only_needed_columns_are_added(base: Seq<usize>, extra: Seq<usize>)
    ensures
        with_missing(base, extra).take(base.len() as int) == base,
        forall|i: int| 0 <= i < extra.len() ==> with_missing(base, extra).contains(extra[i]),
        forall|i: int|
            base.len() <= i < with_missing(base, extra).len() ==> extra.contains(
                #[trigger] with_missing(base, extra)[i],
            ) && !base.contains(with_missing(base, extra)[i]),
        base.no_duplicates() ==> with_missing(base, extra).no_duplicates(),
    decreases extra.len(),
{
    lemma_with_missing(base, extra);
    if extra.len() > 0 {
        let fewer = extra.drop_last();
        law_only_needed_columns_are_added(base, fewer);
        let so_far = with_missing(base, fewer);
        let all = with_missing(base, extra);
        lemma_with_missing(base, fewer);
        assert forall|i: int| base.len() <= i < all.len() implies extra.contains(#[trigger] all[i])
            && !base.contains(all[i]) by {
            if i < so_far.len() {
                assert(all[i] == so_far[i]);
                let k = choose|k: int| 0 <= k < fewer.len() && fewer[k] == so_far[i];
                assert(extra[k] == all[i]);
            } else {
                assert(extra[extra.len() - 1] == all[i]);
                if base.contains(all[i]) {
                    let k = choose|k: int| 0 <= k < base.len() && base[k] == all[i];
                    assert(so_far.take(base.len() as int)[k] == all[i]);
                    assert(so_far[k] == all[i]);
                    assert(so_far.contains(all[i]));
                }
            }
        }
    }
}

} // verus!
