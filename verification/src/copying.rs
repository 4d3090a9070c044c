//! Finding the selected rows and copying their cells.

use crate::batch::{
    batch_rows, batch_width, columns_within, pick_columns, project_row, rows_of, slice_rows, Batch,
    BatchError,
};
use crate::clipboard::{
    cell_start, lemma_separator_len, range_bounds, separator, start_of_cell, SelectionText,
    MAX_CLIPBOARD_BYTES,
};
use crate::explorer::Explorer;
use crate::grid_pages::{law_page_is_found_by_its_number, page_place};
use crate::navigation::visible_batch_columns;
use crate::page::PAGE_ROWS;
use crate::projection::all_columns;
use crate::results::{law_located_row_is_the_row, lemma_located, located};
use crate::state::SelectionRange;
use crate::text::{byte_len, lemma_byte_len_concat};
use vstd::arithmetic::div_mod::lemma_fundamental_div_mod_converse;
use vstd::prelude::*;

verus! {

/// Where a row is held.
#[derive(Clone, Copy, Debug, PartialEq, Eq, Structural)]
pub enum RowPlace {
    /// In the result of a query: its batch, and its place in it.
    Result(usize, usize),
    /// In a page: the number of the page, the batch, and the place in it.
    Page(u64, usize, usize),
}

impl RowPlace {
    /// The place of the row in its batch.
    pub open spec fn offset_of(self) -> usize {
        match self {
            RowPlace::Result(_, offset) => offset,
            RowPlace::Page(_, _, offset) => offset,
        }
    }

    /// The place of the row in its batch.
    pub fn offset(self) -> (offset: usize)
        ensures
            offset == self.offset_of(),
    {
        match self {
            RowPlace::Result(_, offset) => offset,
            RowPlace::Page(_, _, offset) => offset,
        }
    }
}

/// Why the selection cannot be copied.
#[derive(Clone, Copy, Debug, PartialEq, Eq, Structural)]
pub enum CopyError {
    /// The selected row is not held.
    NoRow,
    /// Another row is not held.
    Outside,
    /// There is no such column.
    NoColumn,
    /// There are too many bytes.
    TooLong,
}

/// What copying a cell comes to.
pub enum CopiedCell {
    Outside,
    NoColumn,
    Text(Seq<char>),
}

/// What a text, or that there is none, says.
pub open spec fn text_model(result: Result<String, CopyError>) -> Result<Seq<char>, CopyError> {
    match result {
        Ok(text) => Ok(text@),
        Err(error) => Err(error),
    }
}

/// What the text of a cell, or that there is none, comes to.
pub open spec fn cell_of(cell: Result<String, CopyError>) -> CopiedCell {
    match cell {
        Ok(text) => CopiedCell::Text(text@),
        Err(CopyError::Outside) => CopiedCell::Outside,
        Err(_) => CopiedCell::NoColumn,
    }
}

/// The place of a row among batches.
pub open spec fn placed(place: Option<(int, int)>) -> Option<(usize, usize)> {
    match place {
        Some((batch, row)) => Some((batch as usize, row as usize)),
        None => None,
    }
}

/// The text of some cells of a selection that is so many columns wide, row by row,
/// or why there is none.
pub open spec fn copied(cells: Seq<CopiedCell>, width: nat) -> Result<Seq<char>, CopyError>
    decreases cells.len(),
{
    if cells.len() == 0 {
        Ok(Seq::empty())
    } else {
        let k = cells.len() - 1;
        match copied(cells.drop_last(), width) {
            Err(error) => Err(error),
            Ok(text) => match cells.last() {
                CopiedCell::Outside => Err(CopyError::Outside),
                CopiedCell::NoColumn => Err(CopyError::NoColumn),
                CopiedCell::Text(value) => {
                    let longer = text + separator(cell_start(k < width, k % width as int == 0))
                        + value;
                    if byte_len(longer) <= MAX_CLIPBOARD_BYTES {
                        Ok(longer)
                    } else {
                        Err(CopyError::TooLong)
                    }
                },
            },
        }
    }
}

impl Explorer {
    /// Where a row is held, where it is.
    pub open spec fn row_place(&self, row: u64) -> Option<RowPlace> {
        match self.filtered {
            Some(filtered) => if row < filtered.first_result || row - filtered.first_result
                > usize::MAX {
                None
            } else {
                match placed(located(filtered.batches@, 0, row - filtered.first_result)) {
                    Some((batch, offset)) => Some(RowPlace::Result(batch, offset)),
                    None => None,
                }
            },
            None => if row >= self.grid.rows {
                None
            } else {
                let index = (row / PAGE_ROWS) as u64;
                match page_place(self.pages@, index, 0) {
                    None => None,
                    Some(at) => {
                        let page = self.pages@[at].1;
                        if row < page.window.first_row || row - page.window.first_row
                            > usize::MAX {
                            None
                        } else {
                            match placed(
                                located(page.batches@, 0, row - page.window.first_row),
                            ) {
                                Some((batch, offset)) => Some(
                                    RowPlace::Page(index, batch, offset),
                                ),
                                None => None,
                            }
                        }
                    },
                }
            },
        }
    }

    /// The places of the columns that are shown in the batches that hold their rows.
    pub open spec fn shown_places(&self) -> Seq<usize> {
        match self.filtered {
            Some(filtered) => filtered.display_columns@.map_values(|pair: (usize, usize)| pair.1),
            None => all_columns(self.column_layout.shown().len()),
        }
    }

    /// Whether this can come of copying a cell, where `read` gives the text of a
    /// column in a row.
    pub open spec fn cell_reads<F: Fn(RowPlace, usize) -> Option<String>>(
        &self,
        read: F,
        row: u64,
        column: int,
        cell: CopiedCell,
    ) -> bool {
        match self.row_place(row) {
            None => cell is Outside,
            Some(place) => if column >= self.shown_places().len() {
                cell is NoColumn
            } else {
                exists|text: Option<String>| #[trigger]
                    read.ensures((place, self.shown_places()[column]), text) && cell == match text {
                        Some(text) => CopiedCell::Text(text@),
                        None => CopiedCell::NoColumn,
                    }
            },
        }
    }

    /// Whether these are the first cells of a selection that starts at this row and
    /// column and is so many columns wide.
    pub open spec fn cells_read<F: Fn(RowPlace, usize) -> Option<String>>(
        &self,
        read: F,
        row: u64,
        column: usize,
        width: nat,
        cells: Seq<CopiedCell>,
    ) -> bool {
        forall|k: int|
            0 <= k < cells.len() ==> self.cell_reads(
                read,
                (row + k / width as int) as u64,
                column + k % width as int,
                #[trigger] cells[k],
            )
    }

    /// Whether this can come of copying the cells of some rows and columns. Nothing
    /// is read behind the first cell that cannot be copied.
    pub open spec fn copies<F: Fn(RowPlace, usize) -> Option<String>>(
        &self,
        read: F,
        rows: (u64, u64),
        columns: (usize, usize),
        result: Result<Seq<char>, CopyError>,
    ) -> bool {
        let width = (columns.1 - columns.0 + 1) as nat;
        let total = (rows.1 - rows.0 + 1) * width;
        exists|cells: Seq<CopiedCell>| #[trigger]
            self.cells_read(read, rows.0, columns.0, width, cells) && cells.len() <= total && (
            cells.len() == total || copied(cells, width) is Err) && copied(cells, width) == result
    }

    /// Where a row is held, where it is.
    pub fn place_of_row(&self, row: u64) -> (place: Option<RowPlace>)
        ensures
            place == self.row_place(row),
    {
        if let Some(filtered) = &self.filtered {
            return match filtered.batch_row_at(row) {
                Some((batch, offset)) => Some(RowPlace::Result(batch, offset)),
                None => None,
            };
        }
        match self.grid.page_for_row(row) {
            Some(page) => match self.pages.locate_row(page, row) {
                Some((batch, offset)) => Some(RowPlace::Page(page, batch, offset)),
                None => None,
            },
            None => None,
        }
    }

    /// The batch that holds a row.
    pub open spec fn held_batch(&self, place: RowPlace) -> Batch {
        match place {
            RowPlace::Result(batch, _) => self.filtered->0.batches@[batch as int],
            RowPlace::Page(index, batch, _) => self.pages@[page_place(
                self.pages@,
                index,
                0,
            )->0].1.batches@[batch as int],
        }
    }

    /// Whether there is a batch at this place.
    pub open spec fn holds_batch(&self, place: RowPlace) -> bool {
        match place {
            RowPlace::Result(batch, _) => self.filtered matches Some(filtered) && batch
                < filtered.batches@.len(),
            RowPlace::Page(index, batch, _) => page_place(self.pages@, index, 0) matches Some(at)
                && batch < self.pages@[at].1.batches@.len(),
        }
    }

    /// The batch that holds a row, where there is one.
    pub fn batch_at(&self, place: RowPlace) -> (batch: Option<&Batch>)
        ensures
            match batch {
                Some(batch) => self.holds_batch(place) && *batch == self.held_batch(place),
                None => !self.holds_batch(place),
            },
    {
        match place {
            RowPlace::Result(batch, _) => match &self.filtered {
                Some(filtered) => if batch < filtered.batches.len() {
                    Some(&filtered.batches[batch])
                } else {
                    None
                },
                None => None,
            },
            RowPlace::Page(index, batch, _) => match self.pages.get(index) {
                Some(page) => if batch < page.batches.len() {
                    Some(&page.batches[batch])
                } else {
                    None
                },
                None => None,
            },
        }
    }

    /// A row that is held is one of the batch that holds it.
    proof fn lemma_held(&self, row: u64)
        ensures
            self.row_place(row) matches Some(place) ==> self.holds_batch(place)
                && place.offset_of() < batch_rows(self.held_batch(place)).len(),
    {
        match self.filtered {
            Some(filtered) => {
                assert(filtered.batches.len() == filtered.batches@.len());
                if filtered.first_result <= row {
                    lemma_located(filtered.batches@, 0, row - filtered.first_result);
                }
            },
            None => {
                if let Some(at) = page_place(self.pages@, (row / PAGE_ROWS) as u64, 0) {
                    let page = self.pages@[at].1;
                    assert(page.batches.len() == page.batches@.len());
                    if page.window.first_row <= row {
                        lemma_located(page.batches@, 0, row - page.window.first_row);
                    }
                }
            },
        }
    }

    /// The selected row, as far as it is shown, as a batch of its own. There is none
    /// where no row is selected, or the selected row is not held.
    pub fn selected_row(&self) -> (result: Option<Result<Batch, BatchError>>)
        requires
            self.column_layout.wf(),
        ensures
            match self.grid.selection {
                None => result is None,
                Some((row, _)) => match self.row_place(row) {
                    None => result is None,
                    Some(place) => if columns_within(self.held_batch(place), self.shown_places()) {
                        result matches Some(Ok(part)) && batch_rows(part) == seq![
                            project_row(
                                batch_rows(self.held_batch(place))[place.offset_of() as int],
                                self.shown_places(),
                            ),
                        ] && batch_width(part) == self.shown_places().len()
                    } else {
                        result matches Some(Err(BatchError::Refused(_)))
                    },
                },
            },
    {
        let selected: (u64, usize) = match self.grid.selection {
            Some(selected) => selected,
            None => return None,
        };
        let place = match self.place_of_row(selected.0) {
            Some(place) => place,
            None => return None,
        };
        proof {
            self.lemma_held(selected.0);
        }
        let offset: usize = place.offset();
        let batch = match self.batch_at(place) {
            Some(batch) => batch,
            None => return None,
        };
        let shown = visible_batch_columns(self.filtered.as_ref(), &self.column_layout);
        match pick_columns(batch, &shown) {
            Ok(part) => {
                let row = slice_rows(&part, offset, 1);
                assert(batch_rows(row) =~= seq![
                    project_row(batch_rows(*batch)[offset as int], shown@),
                ]);
                Some(Ok(row))
            },
            Err(error) => Some(Err(BatchError::Refused(error))),
        }
    }

    fn copy_cell<F: Fn(RowPlace, usize) -> Option<String>>(
        &self,
        shown: &Vec<usize>,
        row: u64,
        column: usize,
        read: &F,
    ) -> (cell: Result<String, CopyError>)
        requires
            shown@ == self.shown_places(),
            forall|place: RowPlace, column: usize| read.requires((place, column)),
        ensures
            self.cell_reads(*read, row, column as int, cell_of(cell)),
            cell matches Err(error) ==> error is Outside || error is NoColumn,
    {
        match self.place_of_row(row) {
            None => Err(CopyError::Outside),
            Some(place) => if column >= shown.len() {
                Err(CopyError::NoColumn)
            } else {
                match read(place, shown[column]) {
                    Some(text) => Ok(text),
                    None => Err(CopyError::NoColumn),
                }
            },
        }
    }

    fn copy_cells<F: Fn(RowPlace, usize) -> Option<String>>(
        &self,
        rows: (u64, u64),
        columns: (usize, usize),
        read: &F,
    ) -> (result: Result<String, CopyError>)
        requires
            self.wf(),
            rows.0 <= rows.1,
            columns.0 <= columns.1,
            forall|place: RowPlace, column: usize| read.requires((place, column)),
        ensures
            self.copies(
                *read,
                rows,
                columns,
                text_model(result),
            ),
    {
        let shown = visible_batch_columns(self.filtered.as_ref(), &self.column_layout);
        let ghost width = (columns.1 - columns.0 + 1) as nat;
        let ghost total = (rows.1 - rows.0 + 1) * width;
        let ghost mut cells: Seq<CopiedCell> = Seq::empty();
        let mut text = SelectionText::new();
        let mut row: u64 = rows.0;
        let mut column: usize = columns.0;
        proof {
            assert(0 * width == 0);
            assert(total >= 1) by (nonlinear_arith)
                requires
                    total == (rows.1 - rows.0 + 1) * width,
                    rows.0 <= rows.1,
                    width >= 1,
            ;
        }
        loop
            invariant
                shown@ == self.shown_places(),
                forall|place: RowPlace, column: usize| read.requires((place, column)),
                rows.0 <= row <= rows.1,
                columns.0 <= column <= columns.1,
                width == columns.1 - columns.0 + 1,
                total == (rows.1 - rows.0 + 1) * width,
                cells.len() == (row - rows.0) * width + (column - columns.0),
                self.cells_read(*read, rows.0, columns.0, width, cells),
                copied(cells, width) == Ok::<Seq<char>, CopyError>(text@),
            decreases rows.1 - row, columns.1 - column,
        {
            let ghost k = cells.len() as int;
            proof {
                lemma_fundamental_div_mod_converse(
                    k,
                    width as int,
                    row - rows.0,
                    column - columns.0,
                );
                lemma_within(row - rows.0, rows.1 - rows.0, column - columns.0, width as int);
            }
            let cell = self.copy_cell(&shown, row, column, read);
            proof {
                let before = cells;
                cells = before.push(cell_of(cell));
                assert(cells.drop_last() =~= before);
                assert forall|i: int| 0 <= i < cells.len() implies self.cell_reads(
                    *read,
                    (rows.0 + i / width as int) as u64,
                    columns.0 + i % width as int,
                    #[trigger] cells[i],
                ) by {
                    if i < k {
                        assert(cells[i] == before[i]);
                    } else {
                        assert(cells[i] == cell_of(cell));
                        assert((rows.0 + i / width as int) as u64 == row);
                    }
                }
                assert(self.cells_read(*read, rows.0, columns.0, width, cells));
            }
            let value = match cell {
                Ok(value) => value,
                Err(error) => return Err(error),
            };
            let start = start_of_cell(row == rows.0, column == columns.0);
            if text.push(value.as_str(), start).is_err() {
                return Err(CopyError::TooLong);
            }
            if column < columns.1 {
                column = column + 1;
            } else if row < rows.1 {
                assert((row - rows.0 + 1) * width == (row - rows.0) * width + width)
                    by (nonlinear_arith);
                row = row + 1;
                column = columns.0;
            } else {
                assert((row - rows.0 + 1) * width == (row - rows.0) * width + width)
                    by (nonlinear_arith);
                return Ok(text.finish());
            }
        }
    }

    /// The rows and columns that are copied: the selected row as far as it is shown,
    /// or the selected cells.
    pub open spec fn copied_range(&self, row: bool) -> SelectionRange {
        let selected = self.grid.selection->0;
        if row {
            SelectionRange {
                anchor: (selected.0, 0),
                focus: (selected.0, (self.shown_places().len() - 1) as usize),
            }
        } else {
            match self.grid.selection_range {
                Some(range) => range,
                None => SelectionRange { anchor: selected, focus: selected },
            }
        }
    }

    /// The text of the selected row, or of the selected cells. `read` gives the text
    /// of a column in a row, where there is such a column.
    pub fn selected_text<F: Fn(RowPlace, usize) -> Option<String>>(
        &self,
        row: bool,
        read: &F,
    ) -> (result: Result<String, CopyError>)
        requires
            self.wf(),
            forall|place: RowPlace, column: usize| read.requires((place, column)),
        ensures
            match self.grid.selection {
                None => result == Err::<String, CopyError>(CopyError::NoRow),
                Some((selected_row, _)) => if self.row_place(selected_row) is None {
                    result == Err::<String, CopyError>(CopyError::NoRow)
                } else if row && self.shown_places().len() == 0 {
                    result matches Ok(text) && text@.len() == 0
                } else {
                    exists|rows: (u64, u64), columns: (usize, usize)|
                        self.copied_range(row).spans(rows, columns) && #[trigger] self.copies(
                            *read,
                            rows,
                            columns,
                            text_model(result),
                        )
                },
            },
    {
        let selected: (u64, usize) = match self.grid.selection {
            Some(selected) => selected,
            None => return Err(CopyError::NoRow),
        };
        if self.place_of_row(selected.0).is_none() {
            return Err(CopyError::NoRow);
        }
        let range = if row {
            let columns: usize = visible_batch_columns(
                self.filtered.as_ref(),
                &self.column_layout,
            ).len();
            if columns == 0 {
                return Ok(String::new());
            }
            SelectionRange { anchor: (selected.0, 0), focus: (selected.0, columns - 1) }
        } else {
            match self.grid.selection_range {
                Some(range) => range,
                None => SelectionRange { anchor: selected, focus: selected },
            }
        };
        let (first_row, last_row, first_column, last_column) = range_bounds(range);
        self.copy_cells((first_row, last_row), (first_column, last_column), read)
    }
}

proof fn lemma_within(row: int, last: int, column: int, width: int)
    by (nonlinear_arith)
    requires
        0 <= row <= last,
        0 <= column < width,
    ensures
        row * width + column < (last + 1) * width,
        (row * width + column < width) == (row == 0),
{
}

impl CopyError {
    /// What the user is told; `row` says whether a whole row was to be copied.
    pub open spec fn message_text(self, row: bool) -> Seq<char> {
        match self {
            CopyError::NoRow => "Selected row is no longer in the bounded grid window"@,
            CopyError::Outside => "Selection is outside the current bounded grid window"@,
            CopyError::NoColumn => "Selected column is unavailable"@,
            CopyError::TooLong => if row {
                "Selected row exceeds the 65536-byte clipboard limit"@
            } else {
                "Selection exceeds the 65536-byte clipboard limit"@
            },
        }
    }

    /// What the user is told; `row` says whether a whole row was to be copied.
    pub fn message(&self, row: bool) -> (text: String)
        ensures
            text@ == self.message_text(row),
    {
        match self {
            CopyError::NoRow => "Selected row is no longer in the bounded grid window".to_owned(),
            CopyError::Outside =>
                "Selection is outside the current bounded grid window".to_owned(),
            CopyError::NoColumn => "Selected column is unavailable".to_owned(),
            CopyError::TooLong => if row {
                "Selected row exceeds the 65536-byte clipboard limit".to_owned()
            } else {
                "Selection exceeds the 65536-byte clipboard limit".to_owned()
            },
        }
    }
}

/// What is copied never has more than [`MAX_CLIPBOARD_BYTES`], whatever is selected.
pub proof fn law_copied_text_is_bounded(cells: Seq<CopiedCell>, width: nat)
    ensures
        copied(cells, width) matches Ok(text) ==> byte_len(text) <= MAX_CLIPBOARD_BYTES,
{
    if cells.len() == 0 {
        assert(byte_len(Seq::<char>::empty()) == 0);
    }
}

/// The cells of a selection are copied row by row: cells of a row with a tab between them,
/// rows on lines of their own. Adding a cell to the text of those before it puts a line break
/// before the first cell of each further row, a tab before each other cell, and nothing
/// before the very first one.
pub proof fn law_cells_are_copied_in_lines(
    cells: Seq<CopiedCell>,
    width: nat,
    before: Seq<char>,
    value: Seq<char>,
    after: Seq<char>,
)
    requires
        width > 0,
        copied(cells, width) == Ok::<Seq<char>, CopyError>(before),
        copied(cells.push(CopiedCell::Text(value)), width) == Ok::<Seq<char>, CopyError>(after),
    ensures
        after == before + (if cells.len() == 0 {
            Seq::empty()
        } else if cells.len() as int % width as int == 0 {
            seq!['\n']
        } else {
            seq!['\t']
        }) + value,
{
    let all = cells.push(CopiedCell::Text(value));
    let k = cells.len() as int;
    let w = width as int;
    assert(all.drop_last() =~= cells);
    if k < w {
        assert(k % w == k) by (nonlinear_arith)
            requires
                0 <= k < w,
        ;
    }
}

/// A row is found where it is: the place that is given for it holds that row of the result,
/// or of the page that it stands on.
pub proof fn law_place_holds_the_row(explorer: &Explorer, row: u64)
    requires
        explorer.filtered matches Some(filtered) ==> filtered.batches@.len() <= usize::MAX,
        forall|i: int|
            0 <= i < explorer.pages@.len() ==> (#[trigger] explorer.pages@[i]).1.batches@.len()
                <= usize::MAX,
    ensures
        match explorer.row_place(row) {
            Some(RowPlace::Result(batch, offset)) => {
                let filtered = explorer.filtered->0;
                let rows = rows_of(filtered.batches@);
                &&& explorer.filtered is Some
                &&& filtered.first_result <= row < filtered.first_result + rows.len()
                &&& batch_rows(explorer.held_batch(RowPlace::Result(batch, offset)))[offset as int]
                    == rows[row - filtered.first_result]
            },
            Some(RowPlace::Page(index, batch, offset)) => {
                let at = page_place(explorer.pages@, index, 0)->0;
                let page = explorer.pages@[at].1;
                let rows = rows_of(page.batches@);
                &&& explorer.filtered is None && row < explorer.grid.rows
                &&& index * PAGE_ROWS <= row < (index + 1) * PAGE_ROWS
                &&& 0 <= at < explorer.pages@.len() && explorer.pages@[at].0 == index
                &&& page.window.first_row <= row < page.window.first_row + rows.len()
                &&& batch_rows(explorer.held_batch(RowPlace::Page(index, batch, offset)))[
                    offset as int
                ] == rows[row - page.window.first_row]
            },
            None => explorer.filtered matches Some(filtered) ==> row < filtered.first_result || row
                - filtered.first_result > usize::MAX || row - filtered.first_result >= rows_of(
                filtered.batches@,
            ).len(),
        },
{
    match explorer.filtered {
        Some(filtered) => {
            if filtered.first_result <= row && row - filtered.first_result <= usize::MAX {
                law_located_row_is_the_row(filtered.batches@, 0, row - filtered.first_result);
                lemma_located(filtered.batches@, 0, row - filtered.first_result);
                assert(filtered.batches@.skip(0) =~= filtered.batches@);
            }
        },
        None => {
            let index = (row / PAGE_ROWS) as u64;
            law_page_is_found_by_its_number(explorer.pages@, index, 0);
            if let Some(at) = page_place(explorer.pages@, index, 0) {
                let page = explorer.pages@[at].1;
                if page.window.first_row <= row && row - page.window.first_row <= usize::MAX {
                    law_located_row_is_the_row(page.batches@, 0, row - page.window.first_row);
                    lemma_located(page.batches@, 0, row - page.window.first_row);
                    assert(page.batches@.skip(0) =~= page.batches@);
                }
            }
        },
    }
}

/// Copying a row takes the selected row, from its first to its last shown column, and
/// nothing else; copying cells takes those that are selected.
pub proof fn law_selected_cells_are_copied(explorer: &Explorer, row: u64, column: usize)
    requires
        explorer.grid.selection is Some,
        0 < explorer.shown_places().len() <= usize::MAX,
    ensures
        explorer.copied_range(true).covers(row, column) <==> row == (explorer.grid.selection->0).0
            && column < explorer.shown_places().len(),
        explorer.copied_range(false).covers(row, column) <==> match explorer.grid.selection_range {
            Some(range) => range.covers(row, column),
            None => explorer.grid.selection == Some((row, column)),
        },
{
}

/// Copying another cell fails only where the cell cannot be had, or where all cells together
/// would have more than 65536 bytes, the tabs and line breaks between them counted.
pub proof fn law_copying_fails_only_where_it_must(
    cells: Seq<CopiedCell>,
    width: nat,
    text: Seq<char>,
    value: Seq<char>,
)
    requires
        width > 0,
        copied(cells, width) == Ok::<Seq<char>, CopyError>(text),
    ensures
        copied(cells.push(CopiedCell::Text(value)), width) is Ok <==> byte_len(text) + byte_len(
            value,
        ) + (if cells.len() == 0 {
            0int
        } else {
            1int
        }) <= 65536,
        copied(cells.push(CopiedCell::Outside), width) is Err,
        copied(cells.push(CopiedCell::NoColumn), width) is Err,
{
    let start = cell_start(cells.len() < width, cells.len() as int % width as int == 0);
    let between = separator(start);
    lemma_separator_len(start);
    assert(cells.push(CopiedCell::Text(value)).drop_last() =~= cells);
    assert(cells.push(CopiedCell::Outside).drop_last() =~= cells);
    assert(cells.push(CopiedCell::NoColumn).drop_last() =~= cells);
    lemma_byte_len_concat(text, between);
    lemma_byte_len_concat(text + between, value);
    if cells.len() == 0 {
        assert(0int % width as int == 0) by (nonlinear_arith)
            requires
                width > 0,
        ;
    } else if cells.len() < width {
        assert(cells.len() as int % width as int == cells.len()) by (nonlinear_arith)
            requires
                0 < cells.len() < width,
        ;
    }
}

} // verus!
