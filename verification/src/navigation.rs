//! Moving in the grid: by keys, by entering a row number, and finding out which
//! column is meant.

use crate::page::smaller;
use crate::projection::{all_columns, Projection};
use crate::results::FilteredGrid;
use crate::seqs::first_index;
use crate::state::{
    distance, last_of, move_target, moved, ColumnLayout, GridState, SelectionRange,
};
use crate::text::{
    cat, decimal, decimal_text, is_blank, is_digit, law_parse_inverts_decimal,
    law_trimming_undoes_padding, lemma_decimal_digits, parse_unsigned, parsed_unsigned, trim,
    trimmed,
};
use vstd::prelude::*;

verus! {

/// How many rows the page keys move by.
pub const PAGE_KEY_ROWS: i64 = 20;

/// The keys that are pressed.
#[derive(Clone, Copy, Debug, PartialEq, Eq, Structural)]
pub struct GridKeys {
    pub up: bool,
    pub down: bool,
    pub page_up: bool,
    pub page_down: bool,
    pub left: bool,
    pub right: bool,
    pub home: bool,
    pub end: bool,
    pub shift: bool,
}

/// What entering a row number comes to.
#[derive(Clone, Copy, Debug, PartialEq, Eq, Structural)]
pub enum JumpOutcome {
    /// The row that is shown now, counted from 0.
    Jumped(u64),
    /// The row is not in the window of the result.
    OutsideWindow,
    /// There is no such row.
    NoSuchRow,
}

impl GridKeys {
    /// How many rows the keys move by.
    pub open spec fn row_delta(self) -> int {
        if self.up {
            -1
        } else if self.down {
            1
        } else if self.page_up {
            -PAGE_KEY_ROWS
        } else if self.page_down {
            PAGE_KEY_ROWS as int
        } else {
            0
        }
    }

    /// How many columns the keys move by.
    pub open spec fn column_delta(self) -> int {
        if self.left {
            -1
        } else if self.right {
            1
        } else {
            0
        }
    }

    /// Whether the keys move at all.
    pub open spec fn moves(self) -> bool {
        self.row_delta() != 0 || self.column_delta() != 0 || self.home || self.end
    }
}

/// `n + delta`, but no less than `low` and no more than `high`.
pub open spec fn moved_between(n: int, delta: int, low: int, high: int) -> int {
    if n + delta < low {
        low
    } else if n + delta > high {
        high
    } else {
        n + delta
    }
}

/// The cell that the keys lead to, in a grid whose first row is `first_row`, where
/// the movement is not simply relative to the selection.
pub open spec fn key_target(grid: &GridState, keys: GridKeys, first_row: u64) -> (int, int) {
    let (row, column) = match grid.selection {
        Some(cell) => cell,
        None => (first_row, 0),
    };
    let last_row = smaller(first_row + last_of(grid.rows as int), u64::MAX as int);
    (
        if keys.home {
            first_row as int
        } else if keys.end {
            last_row
        } else {
            moved_between(row as int, keys.row_delta(), first_row as int, last_row)
        },
        moved(column as int, keys.column_delta(), last_of(grid.columns as int)),
    )
}

/// Whether the keys move the selection of the whole dataset relative to where it
/// is.
pub open spec fn moves_relatively(keys: GridKeys, filtered: bool) -> bool {
    !filtered && !keys.home && !keys.end
}

/// Moves the selection as the keys say. The result is the row whose page is wanted
/// then, where the grid shows the whole dataset.
pub fn move_by_keys(grid: &mut GridState, keys: GridKeys, filtered: bool, first_row: u64) -> (wanted:
    Option<u64>)
    ensures
        final(grid).same_but_selection(old(grid)),
        (old(grid).rows == 0 || old(grid).columns == 0 || !keys.moves()) ==> wanted is None
            && final(grid).selection == old(grid).selection && final(grid).selection_range == old(
            grid,
        ).selection_range,
        (old(grid).rows > 0 && old(grid).columns > 0 && keys.moves()) ==> if moves_relatively(
            keys,
            filtered,
        ) {
            let (row, column) = move_target(old(grid), keys.row_delta(), keys.column_delta());
            &&& final(grid).selection == Some((row as u64, column as usize))
            &&& wanted == Some(row as u64)
            &&& final(grid).selection_range matches Some(range) && range.focus == (
                row as u64,
                column as usize,
            ) && range.anchor == (if keys.shift && old(grid).selection is Some
                && old(grid).selection_range is Some {
                old(grid).selection_range->0.anchor
            } else {
                (row as u64, column as usize)
            })
        } else {
            let (row, column) = key_target(old(grid), keys, first_row);
            let reached = row < old(grid).rows;
            &&& wanted == (if filtered {
                None
            } else {
                Some(row as u64)
            })
            &&& reached ==> final(grid).selection == Some((row as u64, column as usize))
                && final(grid).selection_range == Some(
                SelectionRange {
                    anchor: if keys.shift && old(grid).selection_range is Some {
                        old(grid).selection_range->0.anchor
                    } else {
                        (row as u64, column as usize)
                    },
                    focus: (row as u64, column as usize),
                },
            )
            &&& !reached ==> final(grid).selection == old(grid).selection
                && final(grid).selection_range == old(grid).selection_range
        },
{
    if grid.rows == 0 || grid.columns == 0 {
        return None;
    }
    let row_delta: i64 = if keys.up {
        -1
    } else if keys.down {
        1
    } else if keys.page_up {
        -PAGE_KEY_ROWS
    } else if keys.page_down {
        PAGE_KEY_ROWS
    } else {
        0
    };
    let column_delta: i64 = if keys.left {
        -1
    } else if keys.right {
        1
    } else {
        0
    };
    if row_delta == 0 && column_delta == 0 && !keys.home && !keys.end {
        return None;
    }
    if !filtered && !keys.home && !keys.end {
        grid.move_selection(row_delta, column_delta, keys.shift);
        return match grid.selection {
            Some((row, _)) => Some(row),
            None => None,
        };
    }
    let (row, column): (u64, usize) = match grid.selection {
        Some(cell) => cell,
        None => (first_row, 0),
    };
    let last_row: u64 = first_row.saturating_add(grid.rows - 1);
    let target_row: u64 = if keys.home {
        first_row
    } else if keys.end {
        last_row
    } else {
        crate::state::clamp_between(row, row_delta, first_row, last_row)
    };
    let target_column: usize = crate::state::move_within(
        column as u64,
        column_delta,
        (grid.columns - 1) as u64,
    ) as usize;
    if keys.shift {
        grid.extend_selection(target_row, target_column);
    } else {
        grid.select(target_row, target_column);
    }
    if filtered {
        None
    } else {
        Some(target_row)
    }
}

/// The row that an entered number means, counted from 0.
pub open spec fn entered_row(input: Seq<char>) -> Option<u64> {
    match parsed_unsigned(trimmed(input), u64::MAX as nat) {
        Some(one_based) => if one_based > 0 {
            Some((one_based - 1) as u64)
        } else {
            None
        },
        None => None,
    }
}

/// What entering a row number comes to. `window` is the first row and the number
/// of rows of the window of a result, where one is shown.
pub open spec fn jump_outcome(grid: &GridState, window: Option<(u64, u64)>, input: Seq<char>) -> JumpOutcome {
    match entered_row(input) {
        None => JumpOutcome::NoSuchRow,
        Some(row) => match window {
            Some((first, rows)) => if row < first || row >= smaller(
                first + rows,
                u64::MAX as int,
            ) {
                JumpOutcome::OutsideWindow
            } else {
                JumpOutcome::Jumped(row)
            },
            None => if row < grid.rows {
                JumpOutcome::Jumped(row)
            } else {
                JumpOutcome::NoSuchRow
            },
        },
    }
}

/// Selects the row whose number was entered.
pub fn jump_to_input(grid: &mut GridState, window: Option<(u64, u64)>, input: &str) -> (outcome:
    JumpOutcome)
    ensures
        outcome == jump_outcome(old(grid), window, input@),
        final(grid).same_but_selection(old(grid)),
        match outcome {
            JumpOutcome::Jumped(row) => match window {
                Some((first, _)) => if row - first < old(grid).rows && old(grid).columns > 0 {
                    final(grid).selects_only(row, 0)
                } else {
                    final(grid).selection == old(grid).selection && final(grid).selection_range
                        == old(grid).selection_range
                },
                None => {
                    let column = match old(grid).selection {
                        Some((_, column)) => column,
                        None => 0,
                    };
                    if column < old(grid).columns {
                        final(grid).selects_only(row, column)
                    } else {
                        final(grid).selection == old(grid).selection && final(grid).selection_range
                            == old(grid).selection_range
                    }
                },
            },
            _ => final(grid).selection == old(grid).selection && final(grid).selection_range == old(
                grid,
            ).selection_range,
        },
{
    let one_based: u64 = match parse_unsigned(trim(input).as_str(), u64::MAX) {
        Some(number) => number,
        None => return JumpOutcome::NoSuchRow,
    };
    if one_based == 0 {
        return JumpOutcome::NoSuchRow;
    }
    let row: u64 = one_based - 1;
    match window {
        Some((first, rows)) => {
            if row < first || row >= first.saturating_add(rows) {
                return JumpOutcome::OutsideWindow;
            }
            grid.select_filtered(first, row - first, 0);
        },
        None => {
            if row >= grid.rows {
                return JumpOutcome::NoSuchRow;
            }
            grid.jump_to_row(row);
        },
    }
    JumpOutcome::Jumped(row)
}

impl JumpOutcome {
    /// What the user is told.
    pub open spec fn status_text(self) -> Seq<char> {
        match self {
            JumpOutcome::Jumped(row) => "Jumped to row "@ + decimal((row + 1) as nat),
            JumpOutcome::OutsideWindow => {
                "That result row is outside the current bounded window"@
            },
            JumpOutcome::NoSuchRow => "Enter a row number within the current result set"@,
        }
    }

    /// What the user is told.
    pub fn status(self) -> (status: String)
        requires
            self matches JumpOutcome::Jumped(row) ==> row < u64::MAX,
        ensures
            status@ == self.status_text(),
    {
        match self {
            JumpOutcome::Jumped(row) => cat("Jumped to row ", decimal_text(row + 1).as_str()),
            JumpOutcome::OutsideWindow => {
                "That result row is outside the current bounded window".to_owned()
            },
            JumpOutcome::NoSuchRow => {
                "Enter a row number within the current result set".to_owned()
            },
        }
    }
}

/// The column of the dataset that is selected: none where a column of aggregates
/// is, or nothing.
pub fn selected_source_column(
    selection: Option<(u64, usize)>,
    filtered: Option<&FilteredGrid>,
    layout: &ColumnLayout,
) -> (column: Option<usize>)
    requires
        layout.wf(),
    ensures
        column == match selection {
            None => None,
            Some((_, shown)) => match filtered {
                Some(grid) => if grid.aggregate || shown >= grid.display_columns@.len() {
                    None
                } else {
                    Some(grid.display_columns@[shown as int].0)
                },
                None => if shown < layout.shown().len() {
                    Some(layout.shown()[shown as int])
                } else {
                    None
                },
            },
        },
{
    let shown: usize = match selection {
        Some((_, shown)) => shown,
        None => return None,
    };
    match filtered {
        Some(grid) => if grid.aggregate || shown >= grid.display_columns.len() {
            None
        } else {
            Some(grid.display_columns[shown].0)
        },
        None => {
            let visible = layout.visible();
            if shown < visible.len() {
                Some(visible[shown])
            } else {
                None
            }
        },
    }
}

/// The places of the columns that are shown in the batches that hold their rows.
pub fn visible_batch_columns(filtered: Option<&FilteredGrid>, layout: &ColumnLayout) -> (columns:
    Vec<usize>)
    requires
        layout.wf(),
    ensures
        columns@ == match filtered {
            Some(grid) => grid.display_columns@.map_values(|pair: (usize, usize)| pair.1),
            None => all_columns(layout.shown().len()),
        },
{
    match filtered {
        Some(grid) => {
            let pairs = &grid.display_columns;
            let mut columns: Vec<usize> = Vec::new();
            let mut i: usize = 0;
            while i < pairs.len()
                invariant
                    i <= pairs@.len(),
                    columns@ == pairs@.take(i as int).map_values(|pair: (usize, usize)| pair.1),
                decreases pairs@.len() - i,
            {
                columns.push(pairs[i].1);
                i = i + 1;
                assert(columns@ =~= pairs@.take(i as int).map_values(
                    |pair: (usize, usize)| pair.1,
                ));
            }
            assert(pairs@.take(i as int) =~= pairs@);
            columns
        },
        None => Projection::all(layout.visible().len()).to_vec(),
    }
}

/// The place of the first column among these that is this one of the dataset.
pub open spec fn place_shown(pairs: Seq<(usize, usize)>, source: usize) -> Option<usize>
    decreases pairs.len(),
{
    if pairs.len() == 0 {
        None
    } else if pairs[0].0 == source {
        Some(pairs[0].1)
    } else {
        place_shown(pairs.drop_first(), source)
    }
}

/// The place of a column of the dataset in the batches that hold its rows, where it is
/// shown.
pub fn batch_column_of(
    filtered: Option<&FilteredGrid>,
    layout: &ColumnLayout,
    source: usize,
) -> (place: Option<usize>)
    requires
        layout.wf(),
    ensures
        match filtered {
            Some(grid) => place == place_shown(grid.display_columns@, source),
            None => match place {
                Some(place) => first_index(layout.shown(), source) == Some(place as int),
                None => first_index(layout.shown(), source) is None,
            },
        },
{
    let grid = match filtered {
        Some(grid) => grid,
        None => return layout.display_for_source(source),
    };
    let pairs = &grid.display_columns;
    let mut i: usize = 0;
    assert(pairs@.skip(0) =~= pairs@);
    while i < pairs.len()
        invariant
            i <= pairs@.len(),
            filtered == Some(grid),
            *pairs == grid.display_columns,
            place_shown(pairs@, source) == place_shown(pairs@.skip(i as int), source),
        decreases pairs@.len() - i,
    {
        assert(pairs@.skip(i as int)[0] == pairs@[i as int]);
        assert(pairs@.skip(i as int).drop_first() =~= pairs@.skip(i + 1));
        if pairs[i].0 == source {
            return Some(pairs[i].1);
        }
        i = i + 1;
    }
    None
}

/// An arrow key leads to the cell next to the selected one, where there is one on that
/// side.
pub proof fn law_arrow_keys_lead_to_the_next_cell(
    grid: &GridState,
    keys: GridKeys,
    row: u64,
    column: usize,
)
    requires
        grid.selection == Some((row, column)),
        row < grid.rows,
        column < grid.columns,
    ensures
        ({
            let target = move_target(grid, keys.row_delta(), keys.column_delta());
            let sideways = keys.left || keys.right;
            let along = keys.up || keys.down || keys.page_up || keys.page_down;
            &&& !sideways ==> target.1 == column
            &&& !along ==> target.0 == row
            &&& keys.up && row > 0 ==> target.0 == row - 1
            &&& keys.down && !keys.up && row + 1 < grid.rows ==> target.0 == row + 1
            &&& keys.left && column > 0 ==> target.1 == column - 1
            &&& keys.right && !keys.left && column + 1 < grid.columns ==> target.1 == column + 1
        }),
{
}

/// The keys for pages lead further than the arrow keys, and as far down as up.
pub proof fn law_page_keys_lead_as_far_back(up: GridKeys, down: GridKeys)
    requires
        !up.up && !up.down && up.page_up,
        !down.up && !down.down && down.page_down && !down.page_up,
    ensures
        up.row_delta() < -1,
        up.row_delta() + down.row_delta() == 0,
{
}

/// Home leads to the first row of a grid and End to the last one, and no key leads out of
/// it.
pub proof fn law_keys_stay_in_the_grid(grid: &GridState, keys: GridKeys, first_row: u64)
    requires
        grid.rows > 0,
        grid.columns > 0,
        first_row + grid.rows <= u64::MAX,
    ensures
        keys.home ==> key_target(grid, keys, first_row).0 == first_row,
        keys.end && !keys.home ==> key_target(grid, keys, first_row).0 + 1 == first_row + grid.rows,
        first_row <= key_target(grid, keys, first_row).0 < first_row + grid.rows,
        0 <= key_target(grid, keys, first_row).1 < grid.columns,
{
}

/// A movement within bounds ends at the place it aims at, or, where there is none, at the
/// nearest one there is.
pub proof fn law_bounded_movement_ends_nearest(n: int, delta: int, low: int, high: int, other: int)
    requires
        low <= other <= high,
    ensures
        low <= moved_between(n, delta, low, high) <= high,
        distance(moved_between(n, delta, low, high), n + delta) <= distance(other, n + delta),
{
}

/// A number that is entered, with white space around it or not, means the row of that
/// number where the first row has number one. It leads there where the grid, or the window
/// of the result that is shown, has such a row, and nowhere else.
pub proof fn law_entered_number_leads_to_its_row(
    grid: &GridState,
    window: Option<(u64, u64)>,
    before: Seq<char>,
    n: u64,
    after: Seq<char>,
)
    requires
        is_blank(before),
        is_blank(after),
    ensures
        entered_row(before + decimal(n as nat) + after) == if n == 0 {
            None::<u64>
        } else {
            Some((n - 1) as u64)
        },
        ({
            let outcome = jump_outcome(grid, window, before + decimal(n as nat) + after);
            let (first, rows) = match window {
                Some(shown) => shown,
                None => (0, grid.rows),
            };
            &&& first < n <= first + rows ==> outcome == JumpOutcome::Jumped((n - 1) as u64)
            &&& !(first < n <= first + rows) ==> !(outcome is Jumped)
            &&& n == 0 ==> outcome is NoSuchRow
        }),
{
    lemma_decimal_digits(n as nat);
    let digits = decimal(n as nat);
    assert(is_digit(digits[0]));
    assert(is_digit(digits[digits.len() - 1]));
    law_trimming_undoes_padding(before, digits, after);
    law_parse_inverts_decimal(n as nat, u64::MAX as nat);
}

/// A column that is shown is found, at the place that is given for it first.
pub proof fn law_shown_place_is_found(pairs: Seq<(usize, usize)>, source: usize)
    ensures
        match place_shown(pairs, source) {
            Some(place) => exists|i: int|
                0 <= i < pairs.len() && #[trigger] pairs[i] == (source, place) && forall|k: int|
                    0 <= k < i ==> (#[trigger] pairs[k]).0 != source,
            None => forall|i: int| 0 <= i < pairs.len() ==> (#[trigger] pairs[i]).0 != source,
        },
    decreases pairs.len(),
{
    if pairs.len() > 0 && pairs[0].0 != source {
        let rest = pairs.drop_first();
        law_shown_place_is_found(rest, source);
        match place_shown(rest, source) {
            Some(place) => {
                let i = choose|i: int|
                    0 <= i < rest.len() && #[trigger] rest[i] == (source, place) && forall|k: int|
                        0 <= k < i ==> (#[trigger] rest[k]).0 != source;
                assert(pairs[i + 1] == (source, place));
                assert forall|k: int| 0 <= k < i + 1 implies (#[trigger] pairs[k]).0 != source by {
                    if k > 0 {
                        assert(rest[k - 1].0 != source);
                    }
                }
            },
            None => {
                assert forall|i: int| 0 <= i < pairs.len() implies (#[trigger] pairs[i]).0
                    != source by {
                    if i > 0 {
                        assert(rest[i - 1].0 != source);
                    }
                }
            },
        }
    } else if pairs.len() > 0 {
        assert(pairs[0] == (source, pairs[0].1));
    }
}

} // verus!
