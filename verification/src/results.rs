//! The bounded window of rows that a running query has returned.

use std::collections::VecDeque;

use crate::batch::{
    batch_rows, lemma_rows_of_concat, lemma_rows_of_one, row_count, rows_of, Batch,
};
use crate::execution::{ExecutionError, ExecutionState, QueryBatch, QueryExecution};
use crate::logical::LogicalPlan;
use crate::page::{smaller, PAGE_ROWS};
use crate::seqs::{first_index, lemma_first_index};
use crate::sort::SortSpec;
use crate::state::{ColumnLayout, GridState};
use crate::text::{cat, cat3, decimal, decimal_text};
use vstd::prelude::*;

verus! {

/// How many batches the window holds.
pub const MAX_FILTERED_BATCHES: usize = 8;

/// What the user asked for.
#[derive(Clone, Copy, Debug, PartialEq, Eq, Structural)]
pub enum QueryKind {
    Filter,
    Sql,
    Sort,
}

/// What asking a running query for rows comes to.
#[derive(Debug)]
pub enum QueryPoll {
    Batch(QueryBatch),
    Pending,
    Finished,
}

/// What changes outside the window when the query was asked for rows.
#[derive(Debug)]
pub struct PollReport {
    /// What the user is told, where there is something to tell.
    pub status: Option<String>,
    /// For a query that has ended: whether it succeeded, and with how many rows.
    pub history: Option<(bool, Option<u64>)>,
    /// Whether the query can be asked again at once.
    pub more: bool,
}

/// The rows that a query has returned, as far as they are kept.
#[derive(Debug)]
pub struct FilteredGrid {
    pub kind: QueryKind,
    pub plan: LogicalPlan,
    pub sort: Option<SortSpec>,
    pub aggregate: bool,
    pub projected_columns: Vec<usize>,
    /// For each column that is shown: its number in the dataset, and its place in
    /// the batches.
    pub display_columns: Vec<(usize, usize)>,
    pub execution: Option<QueryExecution>,
    pub batches: VecDeque<Batch>,
    /// How many rows have left the window.
    pub first_result: u64,
    pub rows: u64,
    /// How many rows are wanted.
    pub target_result: u64,
    pub finished: bool,
    pub error: Option<String>,
}

impl QueryKind {
    pub open spec fn label_text(self) -> Seq<char> {
        match self {
            QueryKind::Filter => "Filter"@,
            QueryKind::Sql => "SQL"@,
            QueryKind::Sort => "Sorted"@,
        }
    }

    pub open spec fn empty_text(self) -> Seq<char> {
        match self {
            QueryKind::Filter => "No rows match the filter."@,
            QueryKind::Sql => "The query returned no rows."@,
            QueryKind::Sort => "The dataset has no rows."@,
        }
    }

    pub fn label(self) -> (label: &'static str)
        ensures
            label@ == self.label_text(),
    {
        match self {
            QueryKind::Filter => "Filter",
            QueryKind::Sql => "SQL",
            QueryKind::Sort => "Sorted",
        }
    }

    /// What is shown in place of rows where there are none.
    pub fn empty_message(self) -> (message: &'static str)
        ensures
            message@ == self.empty_text(),
    {
        match self {
            QueryKind::Filter => "No rows match the filter.",
            QueryKind::Sql => "The query returned no rows.",
            QueryKind::Sort => "The dataset has no rows.",
        }
    }
}

/// `a + b`, or the greatest row number there is.
pub open spec fn row_sum(a: int, b: int) -> u64 {
    smaller(a + b, u64::MAX as int) as u64
}

/// `a - b`, or 0.
pub open spec fn row_difference(a: int, b: int) -> u64 {
    if a > b {
        (a - b) as u64
    } else {
        0
    }
}

/// Where the row `offset` rows behind the first one stands, looking from the
/// batch `from` on: its batch and its place in it.
pub open spec fn located(batches: Seq<Batch>, from: int, offset: int) -> Option<(int, int)>
    decreases batches.len() - from,
{
    if from < 0 || from >= batches.len() {
        None
    } else if offset < batch_rows(batches[from]).len() {
        Some((from, offset))
    } else {
        located(batches, from + 1, offset - batch_rows(batches[from]).len())
    }
}

/// A row stands in one of the batches, not behind its own distance from the first row.
pub proof fn lemma_located(batches: Seq<Batch>, from: int, offset: int)
    requires
        offset >= 0,
    ensures
        located(batches, from, offset) matches Some((batch, row)) ==> from <= batch < batches.len()
            && 0 <= row < batch_rows(batches[batch]).len() && row <= offset,
    decreases batches.len() - from,
{
    if 0 <= from < batches.len() && offset >= batch_rows(batches[from]).len() {
        lemma_located(batches, from + 1, offset - batch_rows(batches[from]).len());
    }
}

/// For each column that is shown and was read: its number in the dataset, and its
/// place among the columns that were read.
pub open spec fn display_pairs(shown: Seq<usize>, read: Seq<usize>) -> Seq<(usize, usize)>
    decreases shown.len(),
{
    if shown.len() == 0 {
        Seq::empty()
    } else {
        let before = display_pairs(shown.drop_last(), read);
        match first_index(read, shown.last()) {
            Some(place) => before.push((shown.last(), place as usize)),
            None => before,
        }
    }
}

/// How many of `count` batches have left a window.
pub open spec fn batches_gone(count: nat) -> int {
    if count > MAX_FILTERED_BATCHES {
        count - MAX_FILTERED_BATCHES
    } else {
        0
    }
}

/// Where a row stands among some batches: its batch and its place in it.
pub fn locate(batches: &Vec<Batch>, offset: usize) -> (place: Option<(usize, usize)>)
    ensures
        match place {
            Some((batch, row)) => located(batches@, 0, offset as int) == Some(
                (batch as int, row as int),
            ),
            None => located(batches@, 0, offset as int) is None,
        },
{
    let mut left: usize = offset;
    let mut i: usize = 0;
    while i < batches.len()
        invariant
            i <= batches@.len(),
            located(batches@, 0, offset as int) == located(batches@, i as int, left as int),
        decreases batches@.len() - i,
    {
        let rows: usize = row_count(&batches[i]);
        if left < rows {
            return Some((i, left));
        }
        left = left - rows;
        i = i + 1;
    }
    None
}

impl FilteredGrid {
    /// The window holds no more batches than it may.
    pub open spec fn wf(&self) -> bool {
        self.batches@.len() <= MAX_FILTERED_BATCHES
    }

    /// The window holds the last batches of those that were received, and knows
    /// how many rows they have and how many rows came before.
    pub open spec fn tracks(&self, received: Seq<Batch>) -> bool {
        let gone = batches_gone(received.len());
        &&& self.batches@ == received.skip(gone)
        &&& self.first_result == rows_of(received.take(gone)).len()
        &&& self.rows == rows_of(received.skip(gone)).len()
    }

    /// Only rows and what is known of them differ.
    pub open spec fn same_query(&self, other: &Self) -> bool {
        &&& self.kind == other.kind
        &&& self.plan == other.plan
        &&& self.sort == other.sort
        &&& self.aggregate == other.aggregate
        &&& self.projected_columns == other.projected_columns
        &&& self.target_result == other.target_result
    }

    /// The window is `before` with one more batch: the oldest one has left where
    /// there were too many.
    pub open spec fn extends(&self, before: &Self, batch: Batch) -> bool {
        let all = before.batches@.push(batch);
        let grown = row_sum(before.rows as int, batch_rows(batch).len() as int);
        &&& self.same_query(before)
        &&& self.display_columns == before.display_columns
        &&& self.execution == before.execution
        &&& self.finished == before.finished
        &&& self.error == before.error
        &&& if all.len() > MAX_FILTERED_BATCHES {
            let gone = batch_rows(all[0]).len() as int;
            &&& self.batches@ == all.drop_first()
            &&& self.first_result == row_sum(before.first_result as int, gone)
            &&& self.rows == row_difference(grown as int, gone)
        } else {
            &&& self.batches@ == all
            &&& self.first_result == before.first_result
            &&& self.rows == grown
        }
    }

    /// An empty window on a query that was started.
    pub fn new(
        kind: QueryKind,
        plan: LogicalPlan,
        sort: Option<SortSpec>,
        aggregate: bool,
        projected_columns: Vec<usize>,
        execution: QueryExecution,
    ) -> (grid: Self)
        ensures
            grid.wf(),
            grid.tracks(Seq::empty()),
            grid.kind == kind,
            grid.plan == plan,
            grid.sort == sort,
            grid.aggregate == aggregate,
            grid.projected_columns == projected_columns,
            grid.display_columns@ == Seq::<(usize, usize)>::empty(),
            grid.execution == Some(execution),
            grid.target_result == PAGE_ROWS,
            !grid.finished,
            grid.error is None,
    {
        let grid = FilteredGrid {
            kind,
            plan,
            sort,
            aggregate,
            projected_columns,
            display_columns: Vec::new(),
            execution: Some(execution),
            batches: VecDeque::new(),
            first_result: 0,
            rows: 0,
            target_result: PAGE_ROWS,
            finished: false,
            error: None,
        };
        proof {
            assert(Seq::<Batch>::empty().skip(0) =~= Seq::<Batch>::empty());
            assert(Seq::<Batch>::empty().take(0) =~= Seq::<Batch>::empty());
        }
        grid
    }

    /// How many rows have come so far.
    pub fn received_rows(&self) -> (rows: u64)
        ensures
            rows == row_sum(self.first_result as int, self.rows as int),
    {
        self.first_result.saturating_add(self.rows)
    }

    /// Whether rows are wanted that have not come.
    pub fn needs_more(&self) -> (more: bool)
        ensures
            more == (!self.finished && row_sum(self.first_result as int, self.rows as int)
                < self.target_result),
    {
        !self.finished && self.received_rows() < self.target_result
    }

    /// One more page of rows is wanted.
    pub fn request_more(&mut self)
        ensures
            final(self).target_result == ({
                let wanted = row_sum(
                    row_sum(old(self).first_result as int, old(self).rows as int) as int,
                    PAGE_ROWS as int,
                );
                if old(self).target_result > wanted {
                    old(self).target_result
                } else {
                    wanted
                }
            }),
            *final(self) == (FilteredGrid {
                target_result: final(self).target_result,
                ..*old(self)
            }),
    {
        let wanted: u64 = self.received_rows().saturating_add(PAGE_ROWS);
        if self.target_result < wanted {
            self.target_result = wanted;
        }
    }

    /// Takes in the next rows; the oldest ones leave where there are too many.
    pub fn push(&mut self, batch: Batch)
        requires
            old(self).wf(),
        ensures
            final(self).wf(),
            final(self).extends(old(self), batch),
    {
        self.rows = self.rows.saturating_add(row_count(&batch) as u64);
        self.batches.push_back(batch);
        if self.batches.len() > MAX_FILTERED_BATCHES {
            let ghost all = self.batches@;
            if let Some(oldest) = self.batches.pop_front() {
                let rows: u64 = row_count(&oldest) as u64;
                self.first_result = self.first_result.saturating_add(rows);
                self.rows = self.rows.saturating_sub(rows);
                assert(self.batches@ =~= all.drop_first());
            }
        }
    }

    /// The query is not wanted any more.
    pub fn cancel(&mut self)
        ensures
            *final(self) == (FilteredGrid { execution: final(self).execution, ..*old(self) }),
            match (old(self).execution, final(self).execution) {
                (Some(before), Some(after)) => after.continues(&before) && after@ == (
                ExecutionState { cancelled: true, ..before@ }),
                (before, after) => before is None && after is None,
            },
    {
        if let Some(execution) = &mut self.execution {
            execution.cancel();
        }
    }

    /// Chooses the columns to show: those of the result itself for an aggregate,
    /// else those of the layout that were read.
    pub fn refresh_display_columns(&mut self, layout: &ColumnLayout)
        requires
            layout.wf(),
        ensures
            final(self).display_columns@ == (if old(self).aggregate {
                Seq::new(
                    old(self).projected_columns@.len(),
                    |i: int| (i as usize, i as usize),
                )
            } else {
                display_pairs(layout.shown(), old(self).projected_columns@)
            }),
            *final(self) == (FilteredGrid {
                display_columns: final(self).display_columns,
                ..*old(self)
            }),
    {
        let mut pairs: Vec<(usize, usize)> = Vec::new();
        let mut i: usize = 0;
        if self.aggregate {
            while i < self.projected_columns.len()
                invariant
                    i <= self.projected_columns@.len(),
                    *self == *old(self),
                    pairs@ == Seq::new(i as nat, |k: int| (k as usize, k as usize)),
                decreases self.projected_columns@.len() - i,
            {
                pairs.push((i, i));
                i = i + 1;
                assert(pairs@ =~= Seq::new(i as nat, |k: int| (k as usize, k as usize)));
            }
        } else {
            let shown = layout.visible();
            assert(shown@.take(0) =~= Seq::<usize>::empty());
            while i < shown.len()
                invariant
                    i <= shown@.len(),
                    shown@ == layout.shown(),
                    *self == *old(self),
                    pairs@ == display_pairs(shown@.take(i as int), self.projected_columns@),
                decreases shown@.len() - i,
            {
                let source: usize = shown[i];
                proof {
                    assert(shown@.take(i + 1).drop_last() =~= shown@.take(i as int));
                }
                if let Some(place) = crate::state::position_of(&self.projected_columns, source) {
                    pairs.push((source, place));
                }
                i = i + 1;
            }
            assert(shown@.take(i as int) =~= shown@);
        }
        self.display_columns = pairs;
    }

    /// Where the row `offset` rows behind the first one of the window stands.
    pub fn locate(&self, offset: usize) -> (place: Option<(usize, usize)>)
        ensures
            match place {
                Some((batch, row)) => located(self.batches@, 0, offset as int) == Some(
                    (batch as int, row as int),
                ),
                None => located(self.batches@, 0, offset as int) is None,
            },
    {
        let mut left: usize = offset;
        let mut i: usize = 0;
        while i < self.batches.len()
            invariant
                i <= self.batches@.len(),
                located(self.batches@, 0, offset as int) == located(
                    self.batches@,
                    i as int,
                    left as int,
                ),
            decreases self.batches@.len() - i,
        {
            let rows: usize = row_count(&self.batches[i]);
            if left < rows {
                return Some((i, left));
            }
            left = left - rows;
            i = i + 1;
        }
        None
    }

    /// Where a row of the result stands, as long as it is in the window.
    pub fn batch_row_at(&self, row: u64) -> (place: Option<(usize, usize)>)
        ensures
            match place {
                Some((batch, offset)) => row >= self.first_result && row - self.first_result
                    <= usize::MAX && located(
                    self.batches@,
                    0,
                    row - self.first_result,
                ) == Some((batch as int, offset as int)),
                None => row < self.first_result || row - self.first_result > usize::MAX || located(
                    self.batches@,
                    0,
                    row - self.first_result,
                ) is None,
            },
    {
        if row < self.first_result {
            return None;
        }
        let offset: u64 = row - self.first_result;
        if offset > usize::MAX as u64 {
            return None;
        }
        self.locate(offset as usize)
    }

    /// Takes in what asking the query for rows came to. Rows that belong to a state
    /// of the grid that has passed are dropped, and a selection that has left the
    /// window ends.
    pub fn apply_poll(&mut self, poll: Result<QueryPoll, ExecutionError>, grid: &mut GridState) -> (report:
        PollReport)
        requires
            old(self).wf(),
        ensures
            final(self).wf(),
            polled(*old(self), *final(self), *old(grid), *final(grid), poll, report),
    {
        match poll {
            Ok(QueryPoll::Pending) => PollReport { status: None, history: None, more: false },
            Ok(QueryPoll::Finished) => {
                self.execution = None;
                self.finished = true;
                let received: u64 = self.received_rows();
                let status = if self.rows == 0 {
                    self.kind.empty_message().to_owned()
                } else {
                    let head = cat3(
                        self.kind.label(),
                        " results: ",
                        decimal_text(received).as_str(),
                    );
                    cat(head.as_str(), " rows loaded")
                };
                let history: Option<(bool, Option<u64>)> = if self.kind == QueryKind::Sql {
                    Some((true, Some(received)))
                } else {
                    None
                };
                PollReport { status: Some(status), history, more: true }
            },
            Ok(QueryPoll::Batch(rows)) => {
                if rows.generation_id.0 == grid.generation.0 {
                    self.push(rows.batch);
                    if let Some((row, _)) = grid.selection {
                        if row < self.first_result {
                            grid.selection = None;
                            grid.selection_range = None;
                        }
                    }
                }
                PollReport { status: None, history: None, more: true }
            },
            Err(error) => {
                let text = cat3(
                    self.kind.label(),
                    " execution: ",
                    error.message().as_str(),
                );
                self.execution = None;
                self.finished = true;
                self.error = Some(text.as_str().to_owned());
                let history: Option<(bool, Option<u64>)> = if self.kind == QueryKind::Sql {
                    Some((false, None))
                } else {
                    None
                };
                PollReport { status: Some(text), history, more: true }
            },
        }
    }
}

/// What taking in what asking a query for rows came to does to its window and to
/// the grid, and what is reported.
pub open spec fn polled(
    before: FilteredGrid,
    after: FilteredGrid,
    grid_before: GridState,
    grid_after: GridState,
    poll: Result<QueryPoll, ExecutionError>,
    report: PollReport,
) -> bool {
    match poll {
        Ok(QueryPoll::Pending) => !report.more && report.status is None && report.history is None
            && after == before && grid_after == grid_before,
        Ok(QueryPoll::Finished) => report.more && after == (FilteredGrid {
            execution: None,
            finished: true,
            ..before
        }) && grid_after == grid_before && (report.status matches Some(status) && status@
            == finished_text(before)) && report.history == (if before.kind == QueryKind::Sql {
            Some((true, Some(row_sum(before.first_result as int, before.rows as int))))
        } else {
            None
        }),
        Ok(QueryPoll::Batch(rows)) => report.more && report.status is None && report.history is None
            && if rows.generation_id == grid_before.generation {
            &&& after.extends(&before, rows.batch)
            &&& grid_after == (GridState {
                selection: grid_after.selection,
                selection_range: grid_after.selection_range,
                ..grid_before
            })
            &&& if selection_left(grid_before.selection, after.first_result) {
                grid_after.selection is None && grid_after.selection_range is None
            } else {
                grid_after.selection == grid_before.selection && grid_after.selection_range
                    == grid_before.selection_range
            }
        } else {
            after == before && grid_after == grid_before
        },
        Err(error) => report.more && after == (FilteredGrid {
            execution: None,
            finished: true,
            error: after.error,
            ..before
        }) && (report.status matches Some(status) && status@ == failed_text(before.kind, error))
            && (after.error matches Some(text) && text@ == failed_text(before.kind, error))
            && report.history == (if before.kind == QueryKind::Sql {
            Some((false, None::<u64>))
        } else {
            None
        }) && grid_after == grid_before,
    }
}

/// Whether the selected row is before the first one of a window.
pub open spec fn selection_left(selection: Option<(u64, usize)>, first_result: u64) -> bool {
    match selection {
        Some((row, _)) => row < first_result,
        None => false,
    }
}

/// What the user is told once all rows have come.
pub open spec fn finished_text(grid: FilteredGrid) -> Seq<char> {
    if grid.rows == 0 {
        grid.kind.empty_text()
    } else {
        grid.kind.label_text() + " results: "@ + decimal(
            row_sum(grid.first_result as int, grid.rows as int) as nat,
        ) + " rows loaded"@
    }
}

/// What the user is told when a query has failed.
pub open spec fn failed_text(kind: QueryKind, error: ExecutionError) -> Seq<char> {
    kind.label_text() + " execution: "@ + error.message_text()
}

proof fn lemma_count_concat(left: Seq<Batch>, right: Seq<Batch>)
    ensures
        rows_of(left + right).len() == rows_of(left).len() + rows_of(right).len(),
{
    lemma_rows_of_concat(left, right);
}

proof fn lemma_count_one(batch: Batch)
    ensures
        rows_of(seq![batch]).len() == batch_rows(batch).len(),
{
    lemma_rows_of_one(batch);
}

/// The window always holds the last rows that came, without a gap, and knows how
/// many came before them, however many batches have passed through it.
pub proof fn law_window_tracks_results(
    before: FilteredGrid,
    after: FilteredGrid,
    received: Seq<Batch>,
    batch: Batch,
)
    requires
        before.tracks(received),
        rows_of(received.push(batch)).len() <= u64::MAX,
        after.extends(&before, batch),
    ensures
        after.tracks(received.push(batch)),
{
    let now = received.push(batch);
    let gone = batches_gone(received.len());
    let held = received.skip(gone);
    assert(now =~= received + seq![batch]);
    assert(received =~= received.take(gone) + held);
    lemma_count_concat(received, seq![batch]);
    lemma_count_concat(received.take(gone), held);
    lemma_count_one(batch);
    let all = before.batches@.push(batch);
    assert(all =~= held + seq![batch]);
    lemma_count_concat(held, seq![batch]);
    if all.len() > MAX_FILTERED_BATCHES {
        let next = batches_gone(now.len());
        assert(next == gone + 1);
        assert(now.skip(next) =~= all.drop_first());
        assert(now.take(next) =~= received.take(gone) + seq![all[0]]);
        lemma_count_concat(received.take(gone), seq![all[0]]);
        lemma_count_one(all[0]);
        assert(all =~= seq![all[0]] + all.drop_first());
        lemma_count_concat(seq![all[0]], all.drop_first());
        assert(after.batches@ == now.skip(next));
        let a = rows_of(received.take(gone)).len();
        let h = rows_of(held).len();
        let n = batch_rows(batch).len();
        let f = batch_rows(all[0]).len();
        let r = rows_of(all.drop_first()).len();
        assert(rows_of(received).len() == a + h);
        assert(rows_of(now).len() == a + h + n);
        assert(rows_of(all).len() == h + n);
        assert(rows_of(all).len() == f + r);
        assert(rows_of(now.take(next)).len() == a + f);
        assert(after.first_result == rows_of(now.take(next)).len());
        assert(after.rows == rows_of(now.skip(next)).len());
    } else {
        assert(gone == 0 && batches_gone(now.len()) == 0);
        assert(now.skip(0) =~= all);
        assert(now.take(0) =~= received.take(0));
        assert(after.batches@ == now.skip(0));
        assert(after.first_result == rows_of(now.take(0)).len());
        assert(after.rows == rows_of(now.skip(0)).len());
    }
}

/// A row that is found stands where the order of the batches puts it.
pub proof fn law_located_row_is_the_row(batches: Seq<Batch>, from: int, offset: int)
    requires
        0 <= from <= batches.len(),
        0 <= offset,
    ensures
        match located(batches, from, offset) {
            Some((batch, row)) => from <= batch < batches.len() && 0 <= row < batch_rows(
                batches[batch],
            ).len() && offset < rows_of(batches.skip(from)).len() && rows_of(
                batches.skip(from),
            )[offset] == batch_rows(batches[batch])[row],
            None => offset >= rows_of(batches.skip(from)).len(),
        },
    decreases batches.len() - from,
{
    let rest = batches.skip(from);
    if from < batches.len() {
        let next = batches.skip(from + 1);
        assert(rest =~= seq![batches[from]] + next);
        lemma_rows_of_concat(seq![batches[from]], next);
        lemma_rows_of_one(batches[from]);
        if offset >= batch_rows(batches[from]).len() {
            law_located_row_is_the_row(
                batches,
                from + 1,
                offset - batch_rows(batches[from]).len(),
            );
        }
    } else {
        assert(rest =~= Seq::<Batch>::empty());
    }
}

/// The columns of a result are those that are shown and were read, in the order in which
/// they are shown, and each is taken from where it was read.
pub proof fn law_shown_columns_are_taken_from_their_place(shown: Seq<usize>, read: Seq<usize>)
    requires
        read.len() <= usize::MAX,
    ensures
        display_pairs(shown, read).map_values(|pair: (usize, usize)| pair.0) == shown.filter(
            |column: usize| read.contains(column),
        ),
        forall|i: int|
            0 <= i < display_pairs(shown, read).len() ==> (#[trigger] display_pairs(
                shown,
                read,
            )[i]).1 < read.len() && read[display_pairs(shown, read)[i].1 as int] == display_pairs(
                shown,
                read,
            )[i].0,
    decreases shown.len(),
{
    reveal(Seq::filter);
    let first = |pair: (usize, usize)| pair.0;
    let wanted = |column: usize| read.contains(column);
    let pairs = display_pairs(shown, read);
    if shown.len() > 0 {
        let init = shown.drop_last();
        let before = display_pairs(init, read);
        law_shown_columns_are_taken_from_their_place(init, read);
        lemma_first_index(read, shown.last());
        if let Some(place) = first_index(read, shown.last()) {
            assert(read.contains(shown.last()));
            assert(pairs.map_values(first) =~= before.map_values(first).push(shown.last()));
            assert forall|i: int| 0 <= i < pairs.len() implies (#[trigger] pairs[i]).1
                < read.len() && read[pairs[i].1 as int] == pairs[i].0 by {
                if i < before.len() {
                    assert(pairs[i] == before[i]);
                }
            }
        }
    } else {
        assert(pairs.map_values(first) =~= shown.filter(wanted));
    }
}

/// A query that has come to its end is reported with the number of all rows that came,
/// those that have left the window among them.
pub proof fn law_finished_query_counts_its_rows(
    before: FilteredGrid,
    after: FilteredGrid,
    grid: GridState,
    grid_after: GridState,
    report: PollReport,
    received: Seq<Batch>,
)
    requires
        before.tracks(received),
        before.kind == QueryKind::Sql,
        rows_of(received).len() <= u64::MAX,
        polled(before, after, grid, grid_after, Ok(QueryPoll::Finished), report),
    ensures
        report.history == Some((true, Some(rows_of(received).len() as u64))),
        after.tracks(received),
        after.finished,
        grid_after == grid,
{
    let gone = batches_gone(received.len());
    assert(received =~= received.take(gone) + received.skip(gone));
    lemma_count_concat(received.take(gone), received.skip(gone));
}

/// Once rows have left the window the selection goes with them, and only then.
pub proof fn law_selection_leaves_with_its_row(
    before: FilteredGrid,
    after: FilteredGrid,
    grid: GridState,
    grid_after: GridState,
    rows: QueryBatch,
    report: PollReport,
)
    requires
        polled(before, after, grid, grid_after, Ok(QueryPoll::Batch(rows)), report),
        rows.generation_id == grid.generation,
    ensures
        grid.selection matches Some((row, _)) ==> (grid_after.selection is None <==> row
            < after.first_result),
        grid_after.selection is Some ==> grid_after.selection == grid.selection
            && grid_after.selection_range == grid.selection_range,
        grid.selection is None ==> grid_after.selection is None,
{
}

} // verus!
