//! The state of the grid: which pages it holds, what is selected, and how its
//! columns are laid out.

use std::collections::BTreeSet;

use crate::page::{smaller, PAGE_ROWS};
use crate::runtime::GenerationId;
use crate::seqs::{first_index, lemma_first_index};
use vstd::arithmetic::power2::{
    lemma2_to64, lemma_pow2_adds, lemma_pow2_pos, lemma_pow2_strictly_increases,
    lemma_pow2_unfold, pow2,
};
use vstd::prelude::*;

verus! {

broadcast use vstd::std_specs::btree::group_btree_axioms;

/// How far the grid is with its dataset.
#[derive(Debug, PartialEq, Eq)]
pub enum LoadState {
    Idle,
    Opening,
    Ready,
    Error(String),
}

/// What the main area shows.
#[derive(Clone, Copy, Debug, PartialEq, Eq, Structural)]
pub enum Workspace {
    Grid,
    Sql,
}

/// A command of the toolbar that works on the dataset.
#[derive(Clone, Copy, Debug, PartialEq, Eq, Structural)]
pub enum ToolbarCommand {
    Refresh,
    Filter,
    Inspector,
    Charts,
    Sql,
    Export,
}

/// What decides whether commands can be given.
#[derive(Clone, Copy, Debug, PartialEq, Eq, Structural)]
pub struct ToolbarAvailability {
    pub has_dataset: bool,
    pub opening: bool,
}

/// A rectangle of cells between two corners.
#[derive(Clone, Copy, Debug, PartialEq, Eq)]
pub struct SelectionRange {
    pub anchor: (u64, usize),
    pub focus: (u64, usize),
}

/// The pages and the selection of the grid.
#[derive(Debug)]
pub struct GridState {
    pub generation: GenerationId,
    pub rows: u64,
    pub columns: usize,
    pub loading: LoadState,
    pub requested: BTreeSet<u64>,
    pub loaded: BTreeSet<u64>,
    pub selection: Option<(u64, usize)>,
    pub selection_range: Option<SelectionRange>,
}

impl Workspace {
    /// The workspace that the toolbar changes to.
    pub fn toggled(self) -> (other: Self)
        ensures
            other == (if self == Workspace::Sql {
                Workspace::Grid
            } else {
                Workspace::Sql
            }),
    {
        match self {
            Workspace::Sql => Workspace::Grid,
            Workspace::Grid => Workspace::Sql,
        }
    }
}

impl ToolbarAvailability {
    /// Whether a command can be given: there is a dataset, and no other one is
    /// being opened.
    pub fn enabled(self, command: ToolbarCommand) -> (enabled: bool)
        ensures
            enabled == (self.has_dataset && !self.opening),
    {
        self.has_dataset && !self.opening
    }
}

/// Whether `n` lies between `a` and `b`, whichever is the smaller.
pub open spec fn between(n: int, a: int, b: int) -> bool {
    a <= n <= b || b <= n <= a
}

impl SelectionRange {
    /// Whether a cell lies in the rectangle.
    pub open spec fn covers(self, row: u64, column: usize) -> bool {
        between(row as int, self.anchor.0 as int, self.focus.0 as int) && between(
            column as int,
            self.anchor.1 as int,
            self.focus.1 as int,
        )
    }

    /// Whether a cell lies in the rectangle.
    pub fn contains(self, row: u64, column: usize) -> (inside: bool)
        ensures
            inside == self.covers(row, column),
    {
        let (first_row, last_row) = if self.anchor.0 <= self.focus.0 {
            (self.anchor.0, self.focus.0)
        } else {
            (self.focus.0, self.anchor.0)
        };
        let (first_column, last_column) = if self.anchor.1 <= self.focus.1 {
            (self.anchor.1, self.focus.1)
        } else {
            (self.focus.1, self.anchor.1)
        };
        first_row <= row && row <= last_row && first_column <= column && column <= last_column
    }
}

/// `n + delta`, but no less than 0 and no more than `last`.
pub open spec fn moved(n: int, delta: int, last: int) -> int {
    if n + delta < 0 {
        0
    } else {
        smaller(n + delta, last)
    }
}

/// The last of `count` positions, or 0.
pub open spec fn last_of(count: int) -> int {
    if count == 0 {
        0
    } else {
        count - 1
    }
}

pub(crate) fn move_within(n: u64, delta: i64, last: u64) -> (result: u64)
    ensures
        result == moved(n as int, delta as int, last as int),
{
    if delta >= 0 {
        let step: u64 = delta as u64;
        if n >= last || step >= last - n {
            last
        } else {
            n + step
        }
    } else {
        let step: u64 = (-(delta + 1)) as u64 + 1;
        if step >= n {
            0
        } else if n - step > last {
            last
        } else {
            n - step
        }
    }
}

/// `n + delta`, but no less than `low` and no more than `high`.
pub(crate) fn clamp_between(n: u64, delta: i64, low: u64, high: u64) -> (result: u64)
    requires
        low <= high,
    ensures
        result == crate::navigation::moved_between(
            n as int,
            delta as int,
            low as int,
            high as int,
        ),
{
    let stepped: u64 = move_within(n, delta, high);
    if stepped < low {
        low
    } else {
        stepped
    }
}

fn last_position(count: u64) -> (last: u64)
    ensures
        last == last_of(count as int),
{
    if count == 0 {
        0
    } else {
        count - 1
    }
}

impl GridState {
    /// Nothing has been opened yet.
    pub open spec fn is_unused(&self) -> bool {
        &&& self.generation == GenerationId(0)
        &&& self.rows == 0
        &&& self.columns == 0
        &&& self.loading is Idle
        &&& self.requested@ == Set::<u64>::empty()
        &&& self.loaded@ == Set::<u64>::empty()
        &&& self.selection is None
        &&& self.selection_range is None
    }
}

impl Default for GridState {
    fn default() -> (state: Self)
        ensures
            state.is_unused(),
            state.selection_in_bounds(),
    {
        GridState {
            generation: GenerationId(0),
            rows: 0,
            columns: 0,
            loading: LoadState::Idle,
            requested: BTreeSet::new(),
            loaded: BTreeSet::new(),
            selection: None,
            selection_range: None,
        }
    }
}

impl GridState {
    /// What is selected lies in the grid.
    pub open spec fn selection_in_bounds(&self) -> bool {
        &&& self.selection matches Some((row, column)) ==> row < self.rows && column < self.columns
        &&& self.selection_range matches Some(range) ==> range.anchor.0 < self.rows
            && range.focus.0 < self.rows && range.anchor.1 < self.columns && range.focus.1
            < self.columns
    }

    /// Only the selection differs.
    pub open spec fn same_but_selection(&self, other: &Self) -> bool {
        &&& self.generation == other.generation
        &&& self.rows == other.rows
        &&& self.columns == other.columns
        &&& self.loading == other.loading
        &&& self.requested@ == other.requested@
        &&& self.loaded@ == other.loaded@
    }

    /// Whether this cell, and no other one, is selected.
    pub open spec fn selects_only(&self, row: u64, column: usize) -> bool {
        &&& self.selection == Some((row, column))
        &&& self.selection_range == Some(
            SelectionRange { anchor: (row, column), focus: (row, column) },
        )
    }

    /// A dataset is being opened: answers that belong to the one before are stale
    /// from now on.
    pub fn reset(&mut self) -> (generation: GenerationId)
        ensures
            generation == final(self).generation,
            final(self).generation.0 == smaller(old(self).generation.0 + 1, u64::MAX as int),
            final(self).rows == 0,
            final(self).columns == 0,
            final(self).loading is Opening,
            final(self).requested@ == Set::<u64>::empty(),
            final(self).loaded@ == Set::<u64>::empty(),
            final(self).selection is None,
            final(self).selection_range is None,
            final(self).selection_in_bounds(),
    {
        self.generation = GenerationId(self.generation.0.saturating_add(1));
        self.rows = 0;
        self.columns = 0;
        self.loading = LoadState::Opening;
        self.requested.clear();
        self.loaded.clear();
        self.selection = None;
        self.selection_range = None;
        self.generation
    }

    /// The dataset is open.
    pub fn ready(&mut self, rows: u64, columns: usize)
        ensures
            final(self).rows == rows,
            final(self).columns == columns,
            final(self).loading is Ready,
            final(self).generation == old(self).generation,
            final(self).requested@ == old(self).requested@,
            final(self).loaded@ == old(self).loaded@,
            final(self).selection == old(self).selection,
            final(self).selection_range == old(self).selection_range,
    {
        self.rows = rows;
        self.columns = columns;
        self.loading = LoadState::Ready;
    }

    /// The page on which a row stands.
    pub fn page_for_row(&self, row: u64) -> (page: Option<u64>)
        ensures
            page == (if row < self.rows {
                Some((row / PAGE_ROWS) as u64)
            } else {
                None
            }),
    {
        if row < self.rows {
            Some(row / PAGE_ROWS)
        } else {
            None
        }
    }

    /// The pages that hold the rows from `first_row` to `last_row`.
    pub fn visible_pages(&self, first_row: u64, last_row: u64) -> (pages: Vec<u64>)
        ensures
            pages@ == visible_page_numbers(self.rows, first_row, last_row),
    {
        let first: u64 = match self.page_for_row(first_row) {
            Some(page) => page,
            None => {
                let pages: Vec<u64> = Vec::new();
                assert(pages@ =~= visible_page_numbers(self.rows, first_row, last_row));
                return pages;
            },
        };
        let limit: u64 = last_position(self.rows);
        let last_shown: u64 = if last_row < limit {
            last_row
        } else {
            limit
        };
        let last: u64 = last_shown / PAGE_ROWS;
        let mut pages: Vec<u64> = Vec::new();
        let mut page: u64 = first;
        while page <= last
            invariant
                first <= page <= last + 1 || page == first,
                last <= u64::MAX / PAGE_ROWS,
                pages@ == Seq::new((page - first) as nat, |i: int| (first + i) as u64),
            decreases last + 1 - page,
        {
            pages.push(page);
            page = page + 1;
            assert(pages@ =~= Seq::new((page - first) as nat, |i: int| (first + i) as u64));
        }
        assert(pages@ =~= visible_page_numbers(self.rows, first_row, last_row));
        pages
    }

    /// Notes that a page is wanted, and says whether it has to be requested: it is
    /// neither here nor on its way.
    pub fn request_page(&mut self, page: u64) -> (needed: bool)
        ensures
            needed == (!old(self).loaded@.contains(page) && !old(self).requested@.contains(page)),
            final(self).requested@ == (if old(self).loaded@.contains(page) {
                old(self).requested@
            } else {
                old(self).requested@.insert(page)
            }),
            *final(self) == (GridState { requested: final(self).requested, ..*old(self) }),
    {
        !self.loaded.contains(&page) && self.requested.insert(page)
    }

    /// Notes that a page has come, unless it belongs to a dataset that has gone.
    pub fn accept_page(&mut self, generation: GenerationId, page: u64) -> (accepted: bool)
        ensures
            accepted == (generation == old(self).generation),
            accepted ==> final(self).requested@ == old(self).requested@.remove(page)
                && final(self).loaded@ == old(self).loaded@.insert(page),
            !accepted ==> final(self).requested@ == old(self).requested@ && final(self).loaded@
                == old(self).loaded@,
            final(self).generation == old(self).generation,
            final(self).rows == old(self).rows,
            final(self).columns == old(self).columns,
            final(self).loading == old(self).loading,
            final(self).selection == old(self).selection,
            final(self).selection_range == old(self).selection_range,
    {
        if generation.0 != self.generation.0 {
            return false;
        }
        self.requested.remove(&page);
        self.loaded.insert(page);
        true
    }

    /// Selects one cell.
    pub fn select(&mut self, row: u64, column: usize) -> (selected: bool)
        ensures
            selected == (row < old(self).rows && column < old(self).columns),
            selected ==> final(self).selects_only(row, column),
            !selected ==> final(self).selection == old(self).selection
                && final(self).selection_range == old(self).selection_range,
            final(self).same_but_selection(old(self)),
            old(self).selection_in_bounds() ==> final(self).selection_in_bounds(),
    {
        if row >= self.rows || column >= self.columns {
            return false;
        }
        self.selection = Some((row, column));
        self.selection_range = Some(
            SelectionRange { anchor: (row, column), focus: (row, column) },
        );
        true
    }

    /// Selects from where the selection began to a cell.
    pub fn extend_selection(&mut self, row: u64, column: usize) -> (selected: bool)
        ensures
            selected == (row < old(self).rows && column < old(self).columns),
            selected ==> final(self).selection == Some((row, column))
                && final(self).selection_range == Some(
                SelectionRange {
                    anchor: match old(self).selection_range {
                        Some(range) => range.anchor,
                        None => (row, column),
                    },
                    focus: (row, column),
                },
            ),
            !selected ==> final(self).selection == old(self).selection
                && final(self).selection_range == old(self).selection_range,
            final(self).same_but_selection(old(self)),
            old(self).selection_in_bounds() ==> final(self).selection_in_bounds(),
    {
        if row >= self.rows || column >= self.columns {
            return false;
        }
        let anchor: (u64, usize) = match self.selection_range {
            Some(range) => range.anchor,
            None => (row, column),
        };
        self.selection = Some((row, column));
        self.selection_range = Some(SelectionRange { anchor, focus: (row, column) });
        true
    }

    /// Whether a cell is selected.
    pub fn is_selected(&self, row: u64, column: usize) -> (selected: bool)
        ensures
            selected == (self.selection_range matches Some(range) && range.covers(row, column)),
    {
        match self.selection_range {
            Some(range) => range.contains(row, column),
            None => false,
        }
    }

    /// Moves the selection, or its end, as far as the grid goes. Without a
    /// selection, the first cell is selected.
    pub fn move_selection(&mut self, row_delta: i64, column_delta: i64, extend: bool) -> (selected:
        bool)
        ensures
            ({
                let (row, column) = move_target(old(self), row_delta as int, column_delta as int);
                &&& selected == (row < old(self).rows && column < old(self).columns)
                &&& selected && (!extend || old(self).selection is None)
                    ==> final(self).selects_only(row as u64, column as usize)
                &&& selected && extend && old(self).selection is Some ==> final(self).selection
                    == Some((row as u64, column as usize)) && final(self).selection_range == Some(
                    SelectionRange {
                        anchor: match old(self).selection_range {
                            Some(range) => range.anchor,
                            None => (row as u64, column as usize),
                        },
                        focus: (row as u64, column as usize),
                    },
                )
            }),
            !selected ==> final(self).selection == old(self).selection
                && final(self).selection_range == old(self).selection_range,
            final(self).same_but_selection(old(self)),
            old(self).selection_in_bounds() ==> final(self).selection_in_bounds(),
    {
        let (row, column) = match self.selection {
            Some(cell) => cell,
            None => return self.select(0, 0),
        };
        let next_row: u64 = move_within(row, row_delta, last_position(self.rows));
        let next_column: usize = move_within(
            column as u64,
            column_delta,
            last_position(self.columns as u64),
        ) as usize;
        if extend {
            self.extend_selection(next_row, next_column)
        } else {
            self.select(next_row, next_column)
        }
    }

    /// Selects a cell of a row, or of the last row, in the column of the selection.
    pub fn jump_to_row(&mut self, row: u64) -> (selected: bool)
        ensures
            ({
                let target = smaller(row as int, last_of(old(self).rows as int)) as u64;
                let column = match old(self).selection {
                    Some((_, column)) => column,
                    None => 0,
                };
                &&& selected == (target < old(self).rows && column < old(self).columns)
                &&& selected ==> final(self).selects_only(target, column)
            }),
            !selected ==> final(self).selection == old(self).selection
                && final(self).selection_range == old(self).selection_range,
            final(self).same_but_selection(old(self)),
            old(self).selection_in_bounds() ==> final(self).selection_in_bounds(),
    {
        let column: usize = match self.selection {
            Some((_, column)) => column,
            None => 0,
        };
        let last: u64 = last_position(self.rows);
        let target: u64 = if row < last {
            row
        } else {
            last
        };
        self.select(target, column)
    }

    /// Forgets all pages.
    pub fn clear_pages(&mut self)
        ensures
            final(self).requested@ == Set::<u64>::empty(),
            final(self).loaded@ == Set::<u64>::empty(),
            final(self).generation == old(self).generation,
            final(self).rows == old(self).rows,
            final(self).columns == old(self).columns,
            final(self).loading == old(self).loading,
            final(self).selection == old(self).selection,
            final(self).selection_range == old(self).selection_range,
    {
        self.requested.clear();
        self.loaded.clear();
    }

    /// Selects a cell of a filtered grid, whose first row is `first_result`.
    pub fn select_filtered(&mut self, first_result: u64, row: u64, column: usize) -> (selected:
        bool)
        ensures
            selected == (row < old(self).rows && column < old(self).columns),
            selected ==> final(self).selects_only(
                smaller(first_result + row, u64::MAX as int) as u64,
                column,
            ),
            !selected ==> final(self).selection == old(self).selection
                && final(self).selection_range == old(self).selection_range,
            final(self).same_but_selection(old(self)),
    {
        if row >= self.rows || column >= self.columns {
            return false;
        }
        let result_row: u64 = first_result.saturating_add(row);
        self.selection = Some((result_row, column));
        self.selection_range = Some(
            SelectionRange { anchor: (result_row, column), focus: (result_row, column) },
        );
        true
    }
}

/// The numbers of the pages that hold the rows from `first_row` to `last_row` of
/// `rows` rows.
pub open spec fn visible_page_numbers(rows: u64, first_row: u64, last_row: u64) -> Seq<u64> {
    if first_row >= rows {
        Seq::empty()
    } else {
        let first = first_row as int / PAGE_ROWS as int;
        let last = smaller(last_row as int, rows - 1) / PAGE_ROWS as int;
        if last < first {
            Seq::empty()
        } else {
            Seq::new((last - first + 1) as nat, |i: int| (first + i) as u64)
        }
    }
}

/// The cell that a movement ends at.
pub open spec fn move_target(state: &GridState, row_delta: int, column_delta: int) -> (int, int) {
    match state.selection {
        Some((row, column)) => (
            moved(row as int, row_delta, last_of(state.rows as int)),
            moved(column as int, column_delta, last_of(state.columns as int)),
        ),
        None => (0, 0),
    }
}

/// Every row that is shown stands on one of the pages that are visible, and every
/// visible page holds one.
pub proof fn law_visible_pages_cover_rows(rows: u64, first_row: u64, last_row: u64, row: u64)
    requires
        first_row <= row <= last_row,
        row < rows,
    ensures
        visible_page_numbers(rows, first_row, last_row).contains((row / PAGE_ROWS) as u64),
{
    let pages = visible_page_numbers(rows, first_row, last_row);
    let first = first_row as int / PAGE_ROWS as int;
    let page = row as int / PAGE_ROWS as int;
    assert(pages[page - first] == page as u64);
}

/// Whether a page is here or on its way, so that it is not requested again.
pub open spec fn known_page(requested: Set<u64>, loaded: Set<u64>, page: u64) -> bool {
    requested.contains(page) || loaded.contains(page)
}

/// A page that was requested is not requested again: it stays known whichever
/// other page is requested, and whichever page comes, until the pages are dropped.
pub proof fn law_page_is_requested_once(
    requested: Set<u64>,
    loaded: Set<u64>,
    page: u64,
    other: u64,
)
    requires
        known_page(requested, loaded, page),
    ensures
        known_page(requested.insert(other), loaded, page),
        known_page(requested.remove(other), loaded.insert(other), page),
{
}

// ---------------------------------------------------------------------------
// Column layouts
// ---------------------------------------------------------------------------

/// The narrowest column, 72 points, as the bits of a 32-bit float.
pub const MIN_WIDTH_BITS: u32 = 0x4290_0000;

/// The widest column, 480 points, as the bits of a 32-bit float.
pub const MAX_WIDTH_BITS: u32 = 0x43f0_0000;

/// The bits of positive infinity. Non-negative numbers up to it are ordered as
/// their bits are.
pub const INFINITE_WIDTH_BITS: u32 = 0x7f80_0000;

/// The sign bit.
pub const WIDTH_SIGN_BIT: u32 = 0x8000_0000;

/// A width within the bounds: what is smaller, negative numbers among them,
/// becomes the least, what is greater the greatest, and what is no number stays
/// as it is.
pub open spec fn clamped_width(bits: u32) -> u32 {
    if bits > INFINITE_WIDTH_BITS && bits < WIDTH_SIGN_BIT {
        bits
    } else if bits > WIDTH_SIGN_BIT + INFINITE_WIDTH_BITS {
        bits
    } else if bits >= WIDTH_SIGN_BIT || bits < MIN_WIDTH_BITS {
        MIN_WIDTH_BITS
    } else if bits > MAX_WIDTH_BITS {
        MAX_WIDTH_BITS
    } else {
        bits
    }
}

fn clamp_width(bits: u32) -> (width: u32)
    ensures
        width == clamped_width(bits),
{
    if bits > INFINITE_WIDTH_BITS && bits < WIDTH_SIGN_BIT {
        bits
    } else if bits > WIDTH_SIGN_BIT + INFINITE_WIDTH_BITS {
        bits
    } else if bits >= WIDTH_SIGN_BIT || bits < MIN_WIDTH_BITS {
        MIN_WIDTH_BITS
    } else if bits > MAX_WIDTH_BITS {
        MAX_WIDTH_BITS
    } else {
        bits
    }
}

/// In which order the columns of a dataset are shown, which are hidden, and how
/// wide they are. Widths are the bits of 32-bit floats.
#[derive(Debug)]
pub struct ColumnLayout {
    order: Vec<usize>,
    hidden: BTreeSet<usize>,
    widths: Vec<u32>,
    visible: Vec<usize>,
}

/// Whether each column stands in the order exactly once.
pub open spec fn is_order(order: Seq<usize>) -> bool {
    order.no_duplicates() && forall|i: int|
        0 <= i < order.len() ==> #[trigger] order[i] < order.len()
}

/// The columns of the order that are not hidden.
pub open spec fn shown_columns(order: Seq<usize>, hidden: Set<usize>) -> Seq<usize>
    decreases order.len(),
{
    if order.len() == 0 {
        Seq::empty()
    } else if hidden.contains(order.last()) {
        shown_columns(order.drop_last(), hidden)
    } else {
        shown_columns(order.drop_last(), hidden).push(order.last())
    }
}

/// `order` with two columns exchanged.
pub open spec fn exchanged(order: Seq<usize>, first: int, second: int) -> Seq<usize> {
    order.update(first, order[second]).update(second, order[first])
}

/// The position next to `position` in a direction.
pub open spec fn neighbour(position: int, direction: int) -> int {
    if position + direction < 0 {
        0
    } else {
        position + direction
    }
}

impl ColumnLayout {
    /// The columns in the order in which they are shown.
    pub closed spec fn column_order(&self) -> Seq<usize> {
        self.order@
    }

    /// The columns that are hidden.
    pub closed spec fn hidden_columns(&self) -> Set<usize> {
        self.hidden@
    }

    /// The widths of the columns of the dataset.
    pub closed spec fn column_widths(&self) -> Seq<u32> {
        self.widths@
    }

    /// The columns that are shown, in order.
    pub open spec fn shown(&self) -> Seq<usize> {
        shown_columns(self.column_order(), self.hidden_columns())
    }

    /// Each column stands in the order once, has a width, and is shown unless it
    /// is hidden.
    pub closed spec fn wf(&self) -> bool {
        &&& is_order(self.order@)
        &&& self.widths@.len() == self.order@.len()
        &&& self.visible@ == shown_columns(self.order@, self.hidden@)
    }

    pub fn new(columns: usize, width: u32) -> (layout: Self)
        ensures
            layout.wf(),
            layout.column_order() == Seq::new(columns as nat, |i: int| i as usize),
            layout.hidden_columns() == Set::<usize>::empty(),
            layout.column_widths() == Seq::new(columns as nat, |i: int| width),
    {
        let mut order: Vec<usize> = Vec::new();
        let mut widths: Vec<u32> = Vec::new();
        let mut i: usize = 0;
        while i < columns
            invariant
                i <= columns,
                order@ == Seq::new(i as nat, |k: int| k as usize),
                widths@ == Seq::new(i as nat, |k: int| width),
            decreases columns - i,
        {
            order.push(i);
            widths.push(width);
            i = i + 1;
            assert(order@ =~= Seq::new(i as nat, |k: int| k as usize));
            assert(widths@ =~= Seq::new(i as nat, |k: int| width));
        }
        let mut layout = ColumnLayout { order, hidden: BTreeSet::new(), widths, visible: Vec::new() };
        layout.rebuild_visible();
        layout
    }

    fn rebuild_visible(&mut self)
        ensures
            final(self).order@ == old(self).order@,
            final(self).hidden@ == old(self).hidden@,
            final(self).widths@ == old(self).widths@,
            final(self).visible@ == shown_columns(old(self).order@, old(self).hidden@),
    {
        let mut visible: Vec<usize> = Vec::new();
        let mut i: usize = 0;
        assert(self.order@.take(0) =~= Seq::<usize>::empty());
        while i < self.order.len()
            invariant
                i <= self.order@.len(),
                *self == *old(self),
                visible@ == shown_columns(self.order@.take(i as int), self.hidden@),
            decreases self.order@.len() - i,
        {
            let column: usize = self.order[i];
            proof {
                assert(self.order@.take(i + 1).drop_last() =~= self.order@.take(i as int));
            }
            if !self.hidden.contains(&column) {
                visible.push(column);
            }
            i = i + 1;
        }
        assert(self.order@.take(i as int) =~= self.order@);
        self.visible = visible;
    }

    pub fn visible(&self) -> (visible: &[usize])
        requires
            self.wf(),
        ensures
            visible@ == self.shown(),
    {
        self.visible.as_slice()
    }

    /// The columns that are shown, in order.
    pub(crate) fn visible_columns(&self) -> (visible: Vec<usize>)
        requires
            self.wf(),
        ensures
            visible@ == self.shown(),
    {
        crate::logical::copy_columns(&self.visible)
    }

    /// Where a column is shown.
    pub fn display_for_source(&self, source: usize) -> (position: Option<usize>)
        requires
            self.wf(),
        ensures
            match position {
                Some(index) => first_index(self.shown(), source) == Some(index as int) && index
                    < self.shown().len(),
                None => first_index(self.shown(), source) is None,
            },
    {
        position_of(&self.visible, source)
    }

    pub fn is_hidden(&self, source: usize) -> (hidden: bool)
        ensures
            hidden == self.hidden_columns().contains(source),
    {
        self.hidden.contains(&source)
    }

    /// Hides or shows a column.
    pub fn set_hidden(&mut self, source: usize, hidden: bool)
        requires
            old(self).wf(),
        ensures
            final(self).wf(),
            final(self).column_order() == old(self).column_order(),
            final(self).column_widths() == old(self).column_widths(),
            final(self).hidden_columns() == (if source >= old(self).column_order().len() {
                old(self).hidden_columns()
            } else if hidden {
                old(self).hidden_columns().insert(source)
            } else {
                old(self).hidden_columns().remove(source)
            }),
    {
        if source >= self.order.len() {
            return;
        }
        if hidden {
            self.hidden.insert(source);
        } else {
            self.hidden.remove(&source);
        }
        self.rebuild_visible();
    }

    /// Exchanges a column with the one that is shown `direction` places further
    /// on, and says whether there was one.
    pub fn move_source(&mut self, source: usize, direction: i64) -> (moved: bool)
        requires
            old(self).wf(),
        ensures
            final(self).wf(),
            final(self).hidden_columns() == old(self).hidden_columns(),
            final(self).column_widths() == old(self).column_widths(),
            ({
                let shown = old(self).shown();
                let at = first_index(shown, source);
                let target = neighbour(at->0, direction as int);
                &&& moved == (at is Some && target < shown.len())
                &&& !moved ==> final(self).column_order() == old(self).column_order()
                &&& moved ==> final(self).column_order() == exchanged(
                    old(self).column_order(),
                    first_index(old(self).column_order(), source)->0,
                    first_index(old(self).column_order(), shown[target])->0,
                )
            }),
    {
        let at: usize = match position_of(&self.visible, source) {
            Some(at) => at,
            None => return false,
        };
        let target: usize = match step_from(at, direction, self.visible.len()) {
            Some(target) => target,
            None => return false,
        };
        let other: usize = self.visible[target];
        proof {
            lemma_shown_subset(self.order@, self.hidden@);
            lemma_first_index(self.visible@, source);
            lemma_first_index(self.order@, source);
            lemma_first_index(self.order@, other);
            assert(self.order@.contains(self.visible@[at as int]));
            assert(self.order@.contains(self.visible@[target as int]));
        }
        let first: usize = match position_of(&self.order, source) {
            Some(first) => first,
            None => return false,
        };
        let second: usize = match position_of(&self.order, other) {
            Some(second) => second,
            None => return false,
        };
        let left: usize = self.order[first];
        let right: usize = self.order[second];
        self.order.set(first, right);
        self.order.set(second, left);
        proof {
            assert(self.order@ =~= exchanged(old(self).order@, first as int, second as int));
            lemma_exchange_keeps_order(old(self).order@, first as int, second as int);
        }
        self.rebuild_visible();
        true
    }

    /// All columns are shown, in their order in the dataset, at the same width.
    pub fn reset(&mut self, width: u32)
        requires
            old(self).wf(),
        ensures
            final(self).wf(),
            final(self).column_order() == Seq::new(
                old(self).column_order().len(),
                |i: int| i as usize,
            ),
            final(self).hidden_columns() == Set::<usize>::empty(),
            final(self).column_widths() == Seq::new(
                old(self).column_order().len(),
                |i: int| width,
            ),
    {
        *self = ColumnLayout::new(self.order.len(), width);
    }

    /// The width of a column, or `fallback` where there is no such column.
    pub fn width(&self, source: usize, fallback: u32) -> (width: u32)
        ensures
            width == (if source < self.column_widths().len() {
                self.column_widths()[source as int]
            } else {
                fallback
            }),
    {
        if source < self.widths.len() {
            self.widths[source]
        } else {
            fallback
        }
    }

    /// Sets the width of a column, within the bounds.
    pub fn set_width(&mut self, source: usize, width: u32)
        requires
            old(self).wf(),
        ensures
            final(self).wf(),
            final(self).column_order() == old(self).column_order(),
            final(self).hidden_columns() == old(self).hidden_columns(),
            final(self).column_widths() == (if source < old(self).column_widths().len() {
                old(self).column_widths().update(source as int, clamped_width(width))
            } else {
                old(self).column_widths()
            }),
    {
        if source < self.widths.len() {
            self.widths.set(source, clamp_width(width));
        }
    }

    pub fn order(&self) -> (order: &[usize])
        ensures
            order@ == self.column_order(),
    {
        self.order.as_slice()
    }

    pub fn hidden(&self) -> (hidden: &BTreeSet<usize>)
        ensures
            hidden@ == self.hidden_columns(),
    {
        &self.hidden
    }

    pub fn widths(&self) -> (widths: &[u32])
        ensures
            widths@ == self.column_widths(),
    {
        self.widths.as_slice()
    }

    /// Takes over a layout that was kept, unless it does not fit the dataset.
    pub fn restore(&mut self, order: Vec<usize>, hidden: &Vec<usize>, widths: Vec<u32>)
        requires
            old(self).wf(),
        ensures
            final(self).wf(),
            ({
                let fits = order@.len() == old(self).column_order().len() && widths@.len()
                    == old(self).column_widths().len() && is_order(order@);
                &&& fits ==> final(self).column_order() == order@
                    && final(self).hidden_columns() =~= Set::new(
                    |column: usize| hidden@.contains(column) && column < order@.len(),
                ) && final(self).column_widths() == widths@.map_values(
                    |width: u32| clamped_width(width),
                )
                &&& !fits ==> final(self).column_order() == old(self).column_order()
                    && final(self).hidden_columns() == old(self).hidden_columns()
                    && final(self).column_widths() == old(self).column_widths()
            }),
    {
        if order.len() != self.order.len() || widths.len() != self.widths.len()
            || !names_each_column_once(&order) {
            return;
        }
        let mut kept: BTreeSet<usize> = BTreeSet::new();
        let mut i: usize = 0;
        while i < hidden.len()
            invariant
                i <= hidden@.len(),
                kept@ =~= Set::new(
                    |column: usize|
                        hidden@.take(i as int).contains(column) && column < order@.len(),
                ),
            decreases hidden@.len() - i,
        {
            let column: usize = hidden[i];
            let ghost before = kept@;
            if column < order.len() {
                kept.insert(column);
            }
            proof {
                let part = hidden@.take(i + 1);
                assert(part.drop_last() =~= hidden@.take(i as int));
                assert forall|c: usize|
                    part.contains(c) <==> (hidden@.take(i as int).contains(c) || c == column) by {
                    if hidden@.take(i as int).contains(c) {
                        let k = choose|k: int| 0 <= k < i && hidden@.take(i as int)[k] == c;
                        assert(part[k] == c);
                    }
                    if c == column {
                        assert(part[i as int] == c);
                    }
                    if part.contains(c) && c != column {
                        let k = choose|k: int| 0 <= k < part.len() && part[k] == c;
                        assert(hidden@.take(i as int)[k] == c);
                    }
                }
            }
            i = i + 1;
        }
        assert(hidden@.take(i as int) =~= hidden@);
        let mut clamped: Vec<u32> = Vec::new();
        let mut k: usize = 0;
        while k < widths.len()
            invariant
                k <= widths@.len(),
                clamped@ == widths@.take(k as int).map_values(|width: u32| clamped_width(width)),
            decreases widths@.len() - k,
        {
            let ghost before = clamped@;
            clamped.push(clamp_width(widths[k]));
            k = k + 1;
            assert(clamped@ =~= widths@.take(k as int).map_values(
                |width: u32| clamped_width(width),
            ));
        }
        assert(widths@.take(k as int) =~= widths@);
        self.order = order;
        self.hidden = kept;
        self.widths = clamped;
        self.rebuild_visible();
    }
}

pub(crate) fn position_of(columns: &Vec<usize>, column: usize) -> (position: Option<usize>)
    ensures
        match position {
            Some(index) => first_index(columns@, column) == Some(index as int) && index
                < columns@.len(),
            None => first_index(columns@, column) is None,
        },
{
    let mut i: usize = 0;
    while i < columns.len()
        invariant
            i <= columns@.len(),
            forall|k: int| 0 <= k < i ==> columns@[k] != column,
        decreases columns@.len() - i,
    {
        if columns[i] == column {
            proof {
                crate::seqs::lemma_first_index_is(columns@, column, i as int);
            }
            return Some(i);
        }
        i = i + 1;
    }
    proof {
        lemma_first_index(columns@, column);
    }
    None
}

/// The position `direction` places from `at`, or 0 where that is before the first
/// one; none where it is behind the last one.
fn step_from(at: usize, direction: i64, count: usize) -> (target: Option<usize>)
    requires
        at < count,
    ensures
        match target {
            Some(target) => target == neighbour(at as int, direction as int) && target < count,
            None => neighbour(at as int, direction as int) >= count,
        },
{
    if direction >= 0 {
        let step: u64 = direction as u64;
        if step >= (count - at) as u64 {
            None
        } else {
            Some(at + step as usize)
        }
    } else {
        let step: u64 = (-(direction + 1)) as u64 + 1;
        if step >= at as u64 {
            Some(0)
        } else {
            Some(at - step as usize)
        }
    }
}

fn names_each_column_once(order: &Vec<usize>) -> (yes: bool)
    ensures
        yes == is_order(order@),
{
    let mut seen: BTreeSet<usize> = BTreeSet::new();
    let mut i: usize = 0;
    while i < order.len()
        invariant
            i <= order@.len(),
            seen@ =~= order@.take(i as int).to_set(),
            order@.take(i as int).no_duplicates(),
            forall|k: int| 0 <= k < i ==> #[trigger] order@[k] < order@.len(),
        decreases order@.len() - i,
    {
        let column: usize = order[i];
        if column >= order.len() {
            return false;
        }
        let ghost part = order@.take(i as int);
        if !seen.insert(column) {
            proof {
                assert(part.contains(column));
                let k = choose|k: int| 0 <= k < part.len() && part[k] == column;
                assert(order@[k] == order@[i as int]);
            }
            return false;
        }
        proof {
            let next = order@.take(i + 1);
            assert(next =~= part.push(column));
            assert forall|c: usize| next.to_set().contains(c) <==> (part.to_set().contains(c) || c
                == column) by {
                if part.contains(c) {
                    let k = choose|k: int| 0 <= k < part.len() && part[k] == c;
                    assert(next[k] == c);
                }
                if c == column {
                    assert(next[i as int] == c);
                }
            }
            assert(!part.contains(column));
            assert forall|a: int, b: int| 0 <= a < next.len() && 0 <= b < next.len() && a != b implies next[a]
                != next[b] by {
                if a < i && b < i {
                    assert(part[a] != part[b]);
                } else if a < i {
                    assert(part[a] == next[a]);
                } else {
                    assert(part[b] == next[b]);
                }
            }
        }
        i = i + 1;
    }
    assert(order@.take(i as int) =~= order@);
    true
}

proof fn lemma_shown_subset(order: Seq<usize>, hidden: Set<usize>)
    ensures
        forall|i: int|
            0 <= i < shown_columns(order, hidden).len() ==> order.contains(
                #[trigger] shown_columns(order, hidden)[i],
            ) && !hidden.contains(shown_columns(order, hidden)[i]),
        forall|column: usize|
            order.contains(column) && !hidden.contains(column) ==> shown_columns(
                order,
                hidden,
            ).contains(column),
    decreases order.len(),
{
    if order.len() > 0 {
        let init = order.drop_last();
        lemma_shown_subset(init, hidden);
        let before = shown_columns(init, hidden);
        let shown = shown_columns(order, hidden);
        assert forall|i: int| 0 <= i < shown.len() implies order.contains(#[trigger] shown[i])
            && !hidden.contains(shown[i]) by {
            if i < before.len() {
                assert(shown[i] == before[i]);
                let k = choose|k: int| 0 <= k < init.len() && init[k] == before[i];
                assert(order[k] == shown[i]);
            } else {
                assert(order[order.len() - 1] == shown[i]);
            }
        }
        assert forall|column: usize| order.contains(column) && !hidden.contains(column) implies shown.contains(
        column) by {
            let k = choose|k: int| 0 <= k < order.len() && order[k] == column;
            if k < init.len() {
                assert(init[k] == column);
                assert(init.contains(column));
                let j = choose|j: int| 0 <= j < before.len() && before[j] == column;
                assert(shown[j] == column);
            } else {
                assert(shown[shown.len() - 1] == column);
            }
        }
    }
}

proof fn lemma_exchange_keeps_order(order: Seq<usize>, first: int, second: int)
    requires
        is_order(order),
        0 <= first < order.len(),
        0 <= second < order.len(),
    ensures
        is_order(exchanged(order, first, second)),
{
    let after = exchanged(order, first, second);
    assert forall|i: int, j: int| 0 <= i < after.len() && 0 <= j < after.len() && i != j implies after[i]
        != after[j] by {
        let from_i = if i == first {
            second
        } else if i == second {
            first
        } else {
            i
        };
        let from_j = if j == first {
            second
        } else if j == second {
            first
        } else {
            j
        };
        assert(after[i] == order[from_i]);
        assert(after[j] == order[from_j]);
    }
}

/// Exactly the columns of the dataset that are not hidden are shown.
pub proof fn law_layout_shows_all_but_hidden(layout: ColumnLayout, column: usize)
    requires
        layout.wf(),
        column < layout.column_order().len(),
    ensures
        layout.shown().contains(column) <==> !layout.hidden_columns().contains(column),
{
    lemma_shown_subset(layout.order@, layout.hidden@);
    lemma_order_is_onto(layout.order@, column);
    if layout.shown().contains(column) {
        let i = choose|i: int| 0 <= i < layout.shown().len() && layout.shown()[i] == column;
        assert(!layout.hidden@.contains(layout.shown()[i]));
    }
}

pub proof fn lemma_order_is_onto(order: Seq<usize>, column: usize)
    requires
        is_order(order),
        column < order.len(),
    ensures
        order.contains(column),
{
    let numbers = order.map_values(|n: usize| n as int);
    let present = numbers.to_set();
    let range = vstd::set_lib::set_int_range(0, order.len() as int);
    assert(numbers.no_duplicates()) by {
        assert forall|i: int, j: int|
            0 <= i < numbers.len() && 0 <= j < numbers.len() && i != j implies numbers[i]
            != numbers[j] by {
            assert(order[i] != order[j]);
        }
    }
    numbers.unique_seq_to_set();
    vstd::set_lib::lemma_int_range(0, order.len() as int);
    assert(present.subset_of(range)) by {
        assert forall|n: int| present.contains(n) implies range.contains(n) by {
            let k = choose|k: int| 0 <= k < numbers.len() && numbers[k] == n;
            assert(order[k] < order.len());
        }
    }
    vstd::set_lib::lemma_subset_equality(present, range);
    assert(present.contains(column as int));
    let k = choose|k: int| 0 <= k < numbers.len() && numbers[k] == column as int;
    assert(order[k] == column);
}

/// The selected rectangle holds its two corners, whichever was selected first, and leaves
/// out exactly the cells that lie before both corners or beyond both of them in one
/// direction.
pub proof fn law_selection_is_a_rectangle(range: SelectionRange, row: u64, column: usize)
    ensures
        range.covers(range.anchor.0, range.anchor.1),
        range.covers(range.focus.0, range.focus.1),
        range.covers(row, column) == (SelectionRange {
            anchor: range.focus,
            focus: range.anchor,
        }).covers(row, column),
        !range.covers(row, column) <==> {
            ||| row < range.anchor.0 && row < range.focus.0
            ||| row > range.anchor.0 && row > range.focus.0
            ||| column < range.anchor.1 && column < range.focus.1
            ||| column > range.anchor.1 && column > range.focus.1
        },
{
}

/// The distance between two places.
pub open spec fn distance(a: int, b: int) -> int {
    if a < b {
        b - a
    } else {
        a - b
    }
}

/// A movement ends at the place it aims at, or, where there is none, at the nearest one
/// there is.
pub proof fn law_movement_ends_nearest(n: int, delta: int, last: int, other: int)
    requires
        0 <= other <= last,
    ensures
        0 <= moved(n, delta, last) <= last,
        distance(moved(n, delta, last), n + delta) <= distance(other, n + delta),
{
}

/// Every page that is asked for is one of the dataset and holds a row that is shown; the
/// pages come in their order.
pub proof fn law_visible_pages_hold_rows(rows: u64, first_row: u64, last_row: u64, i: int)
    requires
        0 <= i < visible_page_numbers(rows, first_row, last_row).len(),
    ensures
        ({
            let begin = visible_page_numbers(rows, first_row, last_row)[i] * PAGE_ROWS;
            begin < rows && begin <= last_row && first_row < begin + PAGE_ROWS
        }),
        i > 0 ==> visible_page_numbers(rows, first_row, last_row)[i]
            == visible_page_numbers(rows, first_row, last_row)[i - 1] + 1,
{
    let pages = visible_page_numbers(rows, first_row, last_row);
    let first = first_row as int / PAGE_ROWS as int;
    let end = smaller(last_row as int, rows - 1);
    let page = first + i;
    assert(pages[i] == page as u64);
    assert(page <= end / PAGE_ROWS as int);
    assert(page * PAGE_ROWS <= end);
}

/// How many of the least positive number make up a width, given as the bits of a 32-bit
/// float that is not negative: an exponent of 8 bits, then a fraction of 23 bits.
pub open spec fn width_units(bits: u32) -> int {
    let fraction = bits as int % 0x80_0000;
    let exponent = bits as int / 0x80_0000;
    if exponent == 0 {
        fraction
    } else {
        (0x80_0000 + fraction) * pow2((exponent - 1) as nat)
    }
}

/// How many of the least positive number make up so many points.
pub open spec fn points(n: int) -> int {
    n * pow2(149)
}

proof fn lemma_width_units_grow(a: u32, b: u32)
    requires
        a < b < 0x8000_0000u32,
    ensures
        0 <= width_units(a) < width_units(b),
{
    let whole: int = 0x80_0000;
    let (i, j) = (a as int / whole, b as int / whole);
    let (f, g) = (a as int % whole, b as int % whole);
    assert(i <= j);
    if i == j {
        assert(f < g);
        if i > 0 {
            let scale = pow2((i - 1) as nat) as int;
            lemma_pow2_pos((i - 1) as nat);
            assert(0 <= (whole + f) * scale < (whole + g) * scale) by (nonlinear_arith)
                requires
                    0 < scale,
                    0 <= f < g,
                    0 < whole,
            ;
        }
    } else {
        let wide = pow2((j - 1) as nat) as int;
        lemma_pow2_pos((j - 1) as nat);
        assert((whole + g) * wide >= whole * wide) by (nonlinear_arith)
            requires
                0 < wide,
                0 <= g,
        ;
        if i == 0 {
            assert(whole * wide >= whole) by (nonlinear_arith)
                requires
                    0 < wide,
                    0 < whole,
            ;
        } else {
            let scale = pow2((i - 1) as nat) as int;
            lemma_pow2_pos((i - 1) as nat);
            lemma_pow2_unfold(i as nat);
            if i < j - 1 {
                lemma_pow2_strictly_increases(i as nat, (j - 1) as nat);
            }
            assert(2 * scale <= wide);
            assert(0 <= (whole + f) * scale < whole * wide) by (nonlinear_arith)
                requires
                    0 < scale,
                    2 * scale <= wide,
                    0 <= f < whole,
            ;
        }
    }
}

proof fn lemma_width_bounds()
    ensures
        width_units(MIN_WIDTH_BITS) == points(72),
        width_units(MAX_WIDTH_BITS) == points(480),
{
    lemma_pow2_adds(132, 17);
    lemma_pow2_adds(134, 15);
    lemma2_to64();
    let a = pow2(132) as int;
    let b = pow2(134) as int;
    assert(pow2(149) == a * 0x20000);
    assert(pow2(149) == b * 0x8000);
    assert(width_units(MIN_WIDTH_BITS) == 0x90_0000 * a);
    assert(width_units(MAX_WIDTH_BITS) == 0xf0_0000 * b);
    assert(0x90_0000 * a == 72 * (a * 0x20000)) by (nonlinear_arith);
    assert(0xf0_0000 * b == 480 * (b * 0x8000)) by (nonlinear_arith);
}

/// A column is from 72 to 480 points wide. A width between them stays as it is; a lesser
/// one, a negative one among them, becomes the least, and a greater one the greatest.
pub proof fn law_widths_are_bounded(bits: u32)
    requires
        bits <= INFINITE_WIDTH_BITS || WIDTH_SIGN_BIT <= bits <= WIDTH_SIGN_BIT
            + INFINITE_WIDTH_BITS,
    ensures
        points(72) <= width_units(clamped_width(bits)) <= points(480),
        bits < 0x8000_0000u32 && points(72) <= width_units(bits) <= points(480)
            ==> clamped_width(bits) == bits,
        bits >= 0x8000_0000u32 || width_units(bits) < points(72) ==> width_units(
            clamped_width(bits),
        ) == points(72),
        bits < 0x8000_0000u32 && width_units(bits) > points(480) ==> width_units(
            clamped_width(bits),
        ) == points(480),
{
    lemma_width_bounds();
    lemma_width_units_grow(MIN_WIDTH_BITS, MAX_WIDTH_BITS);
    if bits < 0x8000_0000u32 {
        if bits < MIN_WIDTH_BITS {
            lemma_width_units_grow(bits, MIN_WIDTH_BITS);
        } else if MIN_WIDTH_BITS < bits {
            lemma_width_units_grow(MIN_WIDTH_BITS, bits);
        }
        if bits < MAX_WIDTH_BITS {
            lemma_width_units_grow(bits, MAX_WIDTH_BITS);
        } else if MAX_WIDTH_BITS < bits {
            lemma_width_units_grow(MAX_WIDTH_BITS, bits);
        }
    }
}

/// The columns that are shown are those that are not hidden, in their order.
pub proof fn law_shown_columns_keep_their_order(order: Seq<usize>, hidden: Set<usize>)
    ensures
        shown_columns(order, hidden) == order.filter(|column: usize| !hidden.contains(column)),
    decreases order.len(),
{
    reveal(Seq::filter);
    if order.len() > 0 {
        law_shown_columns_keep_their_order(order.drop_last(), hidden);
    }
}

/// Exchanging two columns puts each where the other was and moves no other; doing it again
/// undoes it.
pub proof fn law_exchange_moves_two_columns(order: Seq<usize>, first: int, second: int, i: int)
    requires
        0 <= first < order.len(),
        0 <= second < order.len(),
        0 <= i < order.len(),
    ensures
        exchanged(order, first, second).len() == order.len(),
        exchanged(order, first, second)[first] == order[second],
        exchanged(order, first, second)[second] == order[first],
        i != first && i != second ==> exchanged(order, first, second)[i] == order[i],
        exchanged(exchanged(order, first, second), first, second) == order,
{
    assert(exchanged(exchanged(order, first, second), first, second) =~= order);
}

/// A column moves by one place to the side it is sent to; the first one has nowhere to go
/// on its left.
pub proof fn law_neighbours_are_next_to_each_other(position: int)
    requires
        0 <= position,
    ensures
        neighbour(position, 1) == position + 1,
        position > 0 ==> neighbour(position, -1) == position - 1,
        neighbour(0, -1) == 0,
{
}

} // verus!
