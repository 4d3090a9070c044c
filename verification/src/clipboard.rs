//! The text of selected cells, for the clipboard.

use crate::state::SelectionRange;
use crate::text::{byte_len, lemma_byte_len_concat, utf8_len};
use vstd::prelude::*;
use vstd::string::StringExecFns;

verus! {

/// How many bytes are copied at most.
pub const MAX_CLIPBOARD_BYTES: usize = 65536;

/// How a cell stands to the one before it.
#[derive(Clone, Copy, Debug, PartialEq, Eq, Structural)]
pub enum CellStart {
    /// It is the first cell.
    First,
    /// It stands in the same row.
    Column,
    /// It begins a row.
    Row,
}

/// The selection has more than [`MAX_CLIPBOARD_BYTES`].
#[derive(Clone, Copy, Debug, PartialEq, Eq, Structural)]
pub struct SelectionTooLong;

/// The text of the cells so far.
#[derive(Debug)]
pub struct SelectionText {
    text: String,
}

/// What stands between a cell and the one before it.
pub open spec fn separator(start: CellStart) -> Seq<char> {
    match start {
        CellStart::First => Seq::empty(),
        CellStart::Column => seq!['\t'],
        CellStart::Row => seq!['\n'],
    }
}

/// How a cell of a selection stands to the one before it.
pub open spec fn cell_start(first_row: bool, first_column: bool) -> CellStart {
    if !first_column {
        CellStart::Column
    } else if !first_row {
        CellStart::Row
    } else {
        CellStart::First
    }
}

/// How a cell of a selection stands to the one before it.
pub fn start_of_cell(first_row: bool, first_column: bool) -> (start: CellStart)
    ensures
        start == cell_start(first_row, first_column),
{
    if !first_column {
        CellStart::Column
    } else if !first_row {
        CellStart::Row
    } else {
        CellStart::First
    }
}

impl View for SelectionText {
    type V = Seq<char>;

    closed spec fn view(&self) -> Seq<char> {
        self.text@
    }
}

impl SelectionText {
    pub fn new() -> (text: Self)
        ensures
            text@ == Seq::<char>::empty(),
    {
        SelectionText { text: String::new() }
    }

    /// Adds a cell, unless the text gets too long.
    pub fn push(&mut self, value: &str, start: CellStart) -> (result: Result<(), SelectionTooLong>)
        ensures
            ({
                let longer = old(self)@ + separator(start) + value@;
                &&& result is Ok <==> byte_len(longer) <= MAX_CLIPBOARD_BYTES
                &&& result is Ok ==> final(self)@ == longer
                &&& result is Err ==> final(self)@ == old(self)@
            }),
    {
        let between: usize = match start {
            CellStart::First => 0,
            _ => 1,
        };
        let held: usize = utf8_len(self.text.as_str());
        let more: usize = utf8_len(value);
        proof {
            lemma_byte_len_concat(self@, separator(start));
            lemma_byte_len_concat(self@ + separator(start), value@);
            lemma_separator_len(start);
        }
        if held > MAX_CLIPBOARD_BYTES || more > MAX_CLIPBOARD_BYTES || held + more + between
            > MAX_CLIPBOARD_BYTES {
            return Err(SelectionTooLong);
        }
        let ghost before = self@;
        match start {
            CellStart::First => {
                assert(self@ =~= before + separator(start));
            },
            CellStart::Column => {
                self.text.push('\t');
                assert(self@ =~= before + separator(start));
            },
            CellStart::Row => {
                self.text.push('\n');
                assert(self@ =~= before + separator(start));
            },
        }
        self.text.append(value);
        Ok(())
    }

    /// The text of all cells.
    pub fn finish(self) -> (text: String)
        ensures
            text@ == self@,
    {
        self.text
    }
}

pub(crate) proof fn lemma_separator_len(start: CellStart)
    ensures
        byte_len(separator(start)) == (if start == CellStart::First {
            0nat
        } else {
            1nat
        }),
{
    reveal_with_fuel(byte_len, 2);
    assert(seq!['\t'].drop_last() =~= Seq::<char>::empty());
    assert(seq!['\n'].drop_last() =~= Seq::<char>::empty());
}

impl SelectionRange {
    /// Whether the selection is all cells in these rows and columns.
    pub open spec fn spans(self, rows: (u64, u64), columns: (usize, usize)) -> bool {
        &&& rows.0 <= rows.1
        &&& columns.0 <= columns.1
        &&& forall|row: u64, column: usize|
            self.covers(row, column) <==> rows.0 <= row <= rows.1 && columns.0 <= column
                <= columns.1
    }
}

/// The first and the last row, and the first and the last column, of a selection.
pub fn range_bounds(range: SelectionRange) -> (bounds: (u64, u64, usize, usize))
    ensures
        range.spans((bounds.0, bounds.1), (bounds.2, bounds.3)),
{
    let (first_row, last_row): (u64, u64) = if range.anchor.0 <= range.focus.0 {
        (range.anchor.0, range.focus.0)
    } else {
        (range.focus.0, range.anchor.0)
    };
    let (first_column, last_column): (usize, usize) = if range.anchor.1 <= range.focus.1 {
        (range.anchor.1, range.focus.1)
    } else {
        (range.focus.1, range.anchor.1)
    };
    (first_row, last_row, first_column, last_column)
}

/// The rows and columns that a selection is said to span are those of its two corners.
pub proof fn law_selection_spans_its_corners(
    range: SelectionRange,
    rows: (u64, u64),
    columns: (usize, usize),
)
    requires
        range.spans(rows, columns),
    ensures
        rows.0 <= range.anchor.0 <= rows.1,
        rows.0 <= range.focus.0 <= rows.1,
        columns.0 <= range.anchor.1 <= columns.1,
        columns.0 <= range.focus.1 <= columns.1,
        rows.0 == range.anchor.0 || rows.0 == range.focus.0,
        rows.1 == range.anchor.0 || rows.1 == range.focus.0,
        columns.0 == range.anchor.1 || columns.0 == range.focus.1,
        columns.1 == range.anchor.1 || columns.1 == range.focus.1,
{
    assert(range.covers(range.anchor.0, range.anchor.1));
    assert(range.covers(range.focus.0, range.focus.1));
    assert(range.covers(rows.0, columns.0));
    assert(range.covers(rows.1, columns.1));
}

} // verus!
