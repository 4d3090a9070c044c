//! What the command line prints: an overview of a dataset and a table of its
//! first rows.

use crate::text::{
    cat, cat3, cat5, chars_of, decimal, decimal_text, is_blank, is_digit,
    law_parse_inverts_decimal, law_trimming_undoes_padding, lemma_decimal_digits, parse_usize,
    parsed_unsigned, text_of, trim, trimmed,
};
use vstd::prelude::*;
use vstd::string::StringExecFns;

verus! {

/// The least width of a column.
pub const MIN_COLUMN_WIDTH: usize = 4;

/// The greatest width of a column.
pub const MAX_COLUMN_WIDTH: usize = 32;

/// `text` as a string literal with its escapes.
pub uninterp spec fn debug_form(text: Seq<char>) -> Seq<char>;

/// `format!("{:?}")` of a string: the string between quotes, with escapes.
#[verifier::external_body]
pub(crate) fn debug_text(text: &str) -> (literal: String)
    ensures
        literal@ == debug_form(text@),
{
    format!("{text:?}")
}

// ---------------------------------------------------------------------------
// Padding
// ---------------------------------------------------------------------------

/// `count` times the same character.
pub open spec fn repeated(c: char, count: nat) -> Seq<char> {
    Seq::new(count, |i: int| c)
}

/// How many characters are missing to a width.
pub open spec fn missing(len: nat, width: nat) -> nat {
    if len < width {
        (width - len) as nat
    } else {
        0
    }
}

/// `s` at the right end of a field.
pub open spec fn right_aligned(s: Seq<char>, width: nat) -> Seq<char> {
    repeated(' ', missing(s.len(), width)) + s
}

/// `s` at the left end of a field.
pub open spec fn left_aligned(s: Seq<char>, width: nat) -> Seq<char> {
    s + repeated(' ', missing(s.len(), width))
}

/// `s` where it is no longer than the field, else its beginning and an ellipsis.
pub open spec fn cut_to_width(s: Seq<char>, width: nat) -> Seq<char> {
    if s.len() <= width {
        s
    } else if width <= 1 {
        "…"@
    } else {
        s.take(width - 1).push('…')
    }
}

fn repeat(c: char, count: usize) -> (text: String)
    ensures
        text@ == repeated(c, count as nat),
{
    let mut text = String::new();
    let mut i: usize = 0;
    assert(text@ =~= repeated(c, 0));
    while i < count
        invariant
            i <= count,
            text@ == repeated(c, i as nat),
        decreases count - i,
    {
        text.push(c);
        i = i + 1;
        assert(text@ =~= repeated(c, i as nat));
    }
    text
}

fn pad_left(text: &str, width: usize) -> (field: String)
    ensures
        field@ == right_aligned(text@, width as nat),
{
    let len: usize = chars_of(text).len();
    let gap: usize = if len < width {
        width - len
    } else {
        0
    };
    cat(repeat(' ', gap).as_str(), text)
}

fn pad_right(text: &str, width: usize) -> (field: String)
    ensures
        field@ == left_aligned(text@, width as nat),
{
    let len: usize = chars_of(text).len();
    let gap: usize = if len < width {
        width - len
    } else {
        0
    };
    cat(text, repeat(' ', gap).as_str())
}

/// `value` where it is no longer than the field, else its beginning and an
/// ellipsis.
pub fn truncate(value: &str, width: usize) -> (text: String)
    ensures
        text@ == cut_to_width(value@, width as nat),
{
    let chars = chars_of(value);
    if chars.len() <= width {
        return value.to_owned();
    }
    if width <= 1 {
        return "…".to_owned();
    }
    let mut text = text_of(&chars, 0, width - 1);
    assert(text@ =~= value@.take(width - 1));
    text.push('…');
    text
}

// ---------------------------------------------------------------------------
// Tables
// ---------------------------------------------------------------------------

/// The greatest length of the first `count` cells of a column.
pub open spec fn longest(cells: Seq<Seq<Seq<char>>>, column: int, count: nat) -> nat
    decreases count,
{
    if count == 0 {
        0
    } else {
        let before = longest(cells, column, (count - 1) as nat);
        let len = cells[count - 1][column].len();
        if len > before {
            len
        } else {
            before
        }
    }
}

/// The width of a column: that of its longest text, but neither too narrow nor
/// too wide.
pub open spec fn column_width(
    headers: Seq<Seq<char>>,
    cells: Seq<Seq<Seq<char>>>,
    column: int,
) -> nat {
    let values = longest(cells, column, cells.len());
    let wanted = if headers[column].len() > values {
        headers[column].len()
    } else {
        values
    };
    if wanted < MIN_COLUMN_WIDTH {
        MIN_COLUMN_WIDTH as nat
    } else if wanted > MAX_COLUMN_WIDTH {
        MAX_COLUMN_WIDTH as nat
    } else {
        wanted
    }
}

/// The widths of all columns.
pub open spec fn column_widths(
    headers: Seq<Seq<char>>,
    cells: Seq<Seq<Seq<char>>>,
) -> Seq<nat> {
    Seq::new(headers.len(), |column: int| column_width(headers, cells, column))
}

/// The width of the row numbers.
pub open spec fn number_width(rows: nat) -> nat {
    if decimal(rows).len() < 3 {
        3
    } else {
        decimal(rows).len()
    }
}

/// A horizontal rule over fields of these widths.
pub open spec fn rule_text(
    widths: Seq<nat>,
    left: char,
    middle: char,
    right: char,
    count: nat,
) -> Seq<char>
    decreases count,
{
    if count == 0 {
        seq![left]
    } else {
        rule_text(widths, left, middle, right, (count - 1) as nat) + repeated(
            '─',
            widths[count - 1] + 2,
        ) + seq![
            if count == widths.len() {
                right
            } else {
                middle
            },
        ]
    }
}

/// The first `count` fields of a line, behind `start`.
pub open spec fn fields_text(
    start: Seq<char>,
    values: Seq<Seq<char>>,
    widths: Seq<nat>,
    count: nat,
) -> Seq<char>
    decreases count,
{
    if count == 0 {
        start
    } else {
        fields_text(start, values, widths, (count - 1) as nat) + " "@ + left_aligned(
            values[count - 1],
            widths[count - 1],
        ) + " │"@
    }
}

/// A line of a table: `label` and the values.
pub open spec fn line_text(
    label: Seq<char>,
    label_width: nat,
    values: Seq<Seq<char>>,
    widths: Seq<nat>,
) -> Seq<char> {
    fields_text(
        "│ "@ + right_aligned(label, label_width) + " │"@,
        values,
        widths,
        values.len(),
    )
}

/// The values of a row, each cut to the width of its column.
pub open spec fn cut_row(values: Seq<Seq<char>>, widths: Seq<nat>) -> Seq<Seq<char>> {
    Seq::new(values.len(), |i: int| cut_to_width(values[i], widths[i]))
}

/// The first `count` rows of a table, each on a line.
pub open spec fn rows_text(
    cells: Seq<Seq<Seq<char>>>,
    label_width: nat,
    widths: Seq<nat>,
    count: nat,
) -> Seq<char>
    decreases count,
{
    if count == 0 {
        Seq::empty()
    } else {
        rows_text(cells, label_width, widths, (count - 1) as nat) + line_text(
            decimal(count),
            label_width,
            cut_row(cells[count - 1], widths),
            widths,
        ) + "\n"@
    }
}

/// The framed table.
pub open spec fn grid_text(headers: Seq<Seq<char>>, cells: Seq<Seq<Seq<char>>>) -> Seq<char> {
    let widths = column_widths(headers, cells);
    let first = number_width(cells.len());
    let all = seq![first] + widths;
    rule_text(all, '┌', '┬', '┐', all.len()) + "\n"@ + line_text("#"@, first, headers, widths)
        + "\n"@ + rule_text(all, '├', '┼', '┤', all.len()) + "\n"@ + rows_text(
        cells,
        first,
        widths,
        cells.len(),
    ) + rule_text(all, '└', '┴', '┘', all.len()) + "\n"@
}

/// What the table says above its frame.
pub open spec fn preview_text(rows: nat, columns: nat) -> Seq<char> {
    "\nPreview: "@ + decimal(rows) + " rows × "@ + decimal(columns) + " columns\n\n"@
}

/// The table as it is printed.
pub open spec fn table_text(headers: Seq<Seq<char>>, cells: Seq<Seq<Seq<char>>>) -> Seq<char> {
    preview_text(cells.len(), headers.len()) + if headers.len() == 0 {
        "(no columns)\n"@
    } else {
        grid_text(headers, cells)
    }
}

/// What the strings say.
pub open spec fn texts(strings: Seq<String>) -> Seq<Seq<char>> {
    strings.map_values(|string: String| string@)
}

/// What the rows say.
pub open spec fn text_rows(rows: Seq<Vec<String>>) -> Seq<Seq<Seq<char>>> {
    rows.map_values(|row: Vec<String>| texts(row@))
}

/// The sizes as numbers.
spec fn sizes(widths: Seq<usize>) -> Seq<nat> {
    widths.map_values(|width: usize| width as nat)
}

fn width_of(headers: &Vec<String>, cells: &Vec<Vec<String>>, column: usize) -> (width: usize)
    requires
        column < headers@.len(),
        forall|r: int| 0 <= r < cells@.len() ==> (#[trigger] cells@[r])@.len() == headers@.len(),
    ensures
        width == column_width(texts(headers@), text_rows(cells@), column as int),
        width <= MAX_COLUMN_WIDTH,
{
    let ghost rows = text_rows(cells@);
    let mut widest: usize = 0;
    let mut i: usize = 0;
    while i < cells.len()
        invariant
            i <= cells@.len(),
            column < headers@.len(),
            forall|r: int|
                0 <= r < cells@.len() ==> (#[trigger] cells@[r])@.len() == headers@.len(),
            rows == text_rows(cells@),
            widest == longest(rows, column as int, i as nat),
        decreases cells@.len() - i,
    {
        let len: usize = chars_of(cells[i][column].as_str()).len();
        assert(rows[i as int][column as int] == cells@[i as int]@[column as int]@);
        if len > widest {
            widest = len;
        }
        i = i + 1;
    }
    let header: usize = chars_of(headers[column].as_str()).len();
    let wanted: usize = if header > widest {
        header
    } else {
        widest
    };
    if wanted < MIN_COLUMN_WIDTH {
        MIN_COLUMN_WIDTH
    } else if wanted > MAX_COLUMN_WIDTH {
        MAX_COLUMN_WIDTH
    } else {
        wanted
    }
}

fn rule(widths: &Vec<usize>, left: char, middle: char, right: char) -> (line: String)
    requires
        forall|i: int| 0 <= i < widths@.len() ==> #[trigger] widths@[i] <= usize::MAX - 2,
    ensures
        line@ == rule_text(sizes(widths@), left, middle, right, widths@.len()),
{
    let mut line = String::new();
    line.push(left);
    assert(line@ =~= seq![left]);
    let mut i: usize = 0;
    while i < widths.len()
        invariant
            i <= widths@.len(),
            forall|i: int| 0 <= i < widths@.len() ==> #[trigger] widths@[i] <= usize::MAX - 2,
            line@ == rule_text(sizes(widths@), left, middle, right, i as nat),
        decreases widths@.len() - i,
    {
        let ghost before = line@;
        let width: usize = widths[i];
        line.append(repeat('─', width + 2).as_str());
        let end: char = if i + 1 == widths.len() {
            right
        } else {
            middle
        };
        line.push(end);
        i = i + 1;
        assert(line@ =~= before + repeated('─', (width + 2) as nat) + seq![end]);
    }
    line
}

fn line(label: &str, label_width: usize, values: &Vec<String>, widths: &Vec<usize>) -> (text: String)
    requires
        values@.len() == widths@.len(),
    ensures
        text@ == line_text(label@, label_width as nat, texts(values@), sizes(widths@)),
{
    let mut text = cat3("│ ", pad_left(label, label_width).as_str(), " │");
    let ghost start = text@;
    let mut i: usize = 0;
    while i < values.len()
        invariant
            i <= values@.len(),
            values@.len() == widths@.len(),
            text@ == fields_text(start, texts(values@), sizes(widths@), i as nat),
        decreases values@.len() - i,
    {
        text.append(" ");
        text.append(pad_right(values[i].as_str(), widths[i]).as_str());
        text.append(" │");
        i = i + 1;
    }
    text
}

fn cut_values(values: &Vec<String>, widths: &Vec<usize>) -> (cut: Vec<String>)
    requires
        values@.len() == widths@.len(),
    ensures
        cut@.len() == values@.len(),
        texts(cut@) == cut_row(texts(values@), sizes(widths@)),
{
    let mut cut: Vec<String> = Vec::new();
    let mut i: usize = 0;
    while i < values.len()
        invariant
            i <= values@.len(),
            values@.len() == widths@.len(),
            cut@.len() == i,
            forall|k: int|
                0 <= k < i ==> (#[trigger] cut@[k])@ == cut_to_width(
                    values@[k]@,
                    widths@[k] as nat,
                ),
        decreases values@.len() - i,
    {
        cut.push(truncate(values[i].as_str(), widths[i]));
        i = i + 1;
    }
    assert(texts(cut@) =~= cut_row(texts(values@), sizes(widths@)));
    cut
}

fn rows(cells: &Vec<Vec<String>>, label_width: usize, widths: &Vec<usize>) -> (text: String)
    requires
        forall|r: int| 0 <= r < cells@.len() ==> (#[trigger] cells@[r])@.len() == widths@.len(),
    ensures
        text@ == rows_text(text_rows(cells@), label_width as nat, sizes(widths@), cells@.len()),
{
    let mut text = String::new();
    let mut i: usize = 0;
    assert(text@ =~= Seq::<char>::empty());
    while i < cells.len()
        invariant
            i <= cells.len(),
            forall|r: int| 0 <= r < cells@.len() ==> (#[trigger] cells@[r])@.len() == widths@.len(),
            text@ == rows_text(text_rows(cells@), label_width as nat, sizes(widths@), i as nat),
        decreases cells@.len() - i,
    {
        let ghost before = text@;
        let cut = cut_values(&cells[i], widths);
        assert(text_rows(cells@)[i as int] == texts(cells@[i as int]@));
        i = i + 1;
        let row = line(decimal_text(i as u64).as_str(), label_width, &cut, widths);
        text.append(row.as_str());
        text.append("\n");
    }
    text
}

fn grid(headers: &Vec<String>, cells: &Vec<Vec<String>>) -> (text: String)
    requires
        forall|r: int| 0 <= r < cells@.len() ==> (#[trigger] cells@[r])@.len() == headers@.len(),
    ensures
        text@ == grid_text(texts(headers@), text_rows(cells@)),
{
    let digits: usize = chars_of(decimal_text(cells.len() as u64).as_str()).len();
    let first: usize = if digits < 3 {
        3
    } else {
        digits
    };
    assert(first <= usize::MAX - 2) by {
        lemma_decimal_short(cells@.len());
    }
    let mut widths: Vec<usize> = Vec::new();
    let mut all: Vec<usize> = Vec::new();
    all.push(first);
    let mut i: usize = 0;
    while i < headers.len()
        invariant
            i <= headers@.len(),
            forall|r: int|
                0 <= r < cells@.len() ==> (#[trigger] cells@[r])@.len() == headers@.len(),
            widths@.len() == i,
            all@ == seq![first] + widths@,
            forall|k: int|
                0 <= k < i ==> #[trigger] widths@[k] == column_width(
                    texts(headers@),
                    text_rows(cells@),
                    k,
                ) && widths@[k] <= MAX_COLUMN_WIDTH,
        decreases headers@.len() - i,
    {
        let width: usize = width_of(headers, cells, i);
        let ghost before = widths@;
        widths.push(width);
        all.push(width);
        assert(all@ =~= seq![first] + widths@);
        i = i + 1;
    }
    proof {
        assert(sizes(widths@) =~= column_widths(texts(headers@), text_rows(cells@)));
        assert(sizes(all@) =~= seq![first as nat] + sizes(widths@));
        assert forall|k: int| 0 <= k < all@.len() implies #[trigger] all@[k] <= usize::MAX - 2 by {
            if k > 0 {
                assert(all@[k] == widths@[k - 1]);
            }
        }
    }
    let mut text = rule(&all, '┌', '┬', '┐');
    text.append("\n");
    text.append(line("#", first, headers, &widths).as_str());
    text.append("\n");
    text.append(rule(&all, '├', '┼', '┤').as_str());
    text.append("\n");
    text.append(rows(cells, first, &widths).as_str());
    text.append(rule(&all, '└', '┴', '┘').as_str());
    text.append("\n");
    text
}

/// A number of `usize` has far fewer digits than there are sizes.
proof fn lemma_decimal_short(n: nat)
    requires
        n <= usize::MAX,
    ensures
        decimal(n).len() <= 40,
{
    reveal_with_fuel(ten_to, 21);
    lemma_decimal_len(n, 20);
}

spec fn ten_to(k: nat) -> nat
    decreases k,
{
    if k == 0 {
        1
    } else {
        10 * ten_to((k - 1) as nat)
    }
}

proof fn lemma_decimal_len(n: nat, k: nat)
    requires
        n < ten_to(k),
    ensures
        decimal(n).len() <= k || k == 0,
    decreases k,
{
    reveal_with_fuel(ten_to, 2);
    if k > 1 && n >= 10 {
        lemma_decimal_len(n / 10, (k - 1) as nat);
    }
}

/// The table of these rows, as it is printed.
pub fn render_table(headers: &Vec<String>, cells: &Vec<Vec<String>>) -> (text: String)
    requires
        forall|r: int| 0 <= r < cells@.len() ==> (#[trigger] cells@[r])@.len() == headers@.len(),
    ensures
        text@ == table_text(texts(headers@), text_rows(cells@)),
{
    let mut text = cat5(
        "\nPreview: ",
        decimal_text(cells.len() as u64).as_str(),
        " rows × ",
        decimal_text(headers.len() as u64).as_str(),
        " columns\n\n",
    );
    if headers.len() == 0 {
        text.append("(no columns)\n");
    } else {
        text.append(grid(headers, cells).as_str());
    }
    text
}

// ---------------------------------------------------------------------------
// The overview
// ---------------------------------------------------------------------------

/// The line on one column.
pub open spec fn schema_line_text(index: nat, name: Seq<char>, data_type: Seq<char>) -> Seq<char> {
    right_aligned(decimal(index), 3) + " "@ + left_aligned(name, 20) + " "@ + data_type
}

/// The line on one column.
pub fn schema_line(index: usize, name: &str, data_type: &str) -> (line: String)
    ensures
        line@ == schema_line_text(index as nat, name@, data_type@),
{
    cat5(
        pad_left(decimal_text(index as u64).as_str(), 3).as_str(),
        " ",
        pad_right(name, 20).as_str(),
        " ",
        data_type,
    )
}

/// The line on one row group.
pub open spec fn group_line_text(index: nat, first_row: nat, row_count: nat) -> Seq<char> {
    "row group "@ + right_aligned(decimal(index), 3) + ": rows "@ + decimal(first_row) + "..="@
        + decimal((first_row + row_count - 1) as nat) + " ("@ + decimal(row_count) + " rows)"@
}

/// The line on one row group.
pub fn group_line(index: usize, first_row: u64, row_count: u64) -> (line: String)
    requires
        0 < first_row + row_count <= u64::MAX,
    ensures
        line@ == group_line_text(index as nat, first_row as nat, row_count as nat),
{
    let mut line = cat5(
        "row group ",
        pad_left(decimal_text(index as u64).as_str(), 3).as_str(),
        ": rows ",
        decimal_text(first_row).as_str(),
        "..=",
    );
    line.append(decimal_text(first_row + row_count - 1).as_str());
    line.append(" (");
    line.append(decimal_text(row_count).as_str());
    line.append(" rows)");
    line
}

// ---------------------------------------------------------------------------
// Column lists
// ---------------------------------------------------------------------------

/// The parts of `s` between the occurrences of `c`.
pub open spec fn split_at(s: Seq<char>, c: char) -> Seq<Seq<char>>
    decreases s.len(),
{
    if s.len() == 0 {
        seq![Seq::empty()]
    } else {
        let before = split_at(s.drop_last(), c);
        if s.last() == c {
            before.push(Seq::empty())
        } else {
            before.update(before.len() - 1, before.last().push(s.last()))
        }
    }
}

/// The parts of `text` between the occurrences of `c`.
pub fn split_char(text: &str, c: char) -> (parts: Vec<String>)
    ensures
        texts(parts@) == split_at(text@, c),
{
    let chars = chars_of(text);
    let mut parts: Vec<String> = Vec::new();
    let mut current = String::new();
    let mut i: usize = 0;
    assert(chars@.take(0) =~= Seq::<char>::empty());
    assert(texts(parts@).push(current@) =~= split_at(chars@.take(0), c));
    while i < chars.len()
        invariant
            i <= chars@.len(),
            texts(parts@).push(current@) == split_at(chars@.take(i as int), c),
        decreases chars@.len() - i,
    {
        let ghost before = split_at(chars@.take(i as int), c);
        let ghost held = texts(parts@);
        let ghost part = current@;
        proof {
            assert(chars@.take(i + 1).drop_last() =~= chars@.take(i as int));
        }
        if chars[i] == c {
            parts.push(current);
            current = String::new();
            proof {
                assert(texts(parts@) =~= held.push(part));
                assert(texts(parts@).push(current@) =~= before.push(Seq::empty()));
            }
        } else {
            current.push(chars[i]);
            assert(texts(parts@).push(current@) =~= before.update(
                before.len() - 1,
                before.last().push(chars@[i as int]),
            ));
        }
        i = i + 1;
    }
    let ghost held = texts(parts@);
    let ghost part = current@;
    parts.push(current);
    assert(texts(parts@) =~= held.push(part));
    assert(chars@.take(i as int) =~= text@);
    parts
}

/// Why a list of columns is not accepted.
#[derive(Debug)]
pub enum ColumnsError {
    Empty,
    Invalid(String),
    OutOfRange { index: usize, column_count: usize },
}

/// What an error says.
pub enum ColumnsErrorModel {
    Empty,
    Invalid(Seq<char>),
    OutOfRange { index: usize, column_count: usize },
}

impl View for ColumnsError {
    type V = ColumnsErrorModel;

    open spec fn view(&self) -> ColumnsErrorModel {
        match self {
            ColumnsError::Empty => ColumnsErrorModel::Empty,
            ColumnsError::Invalid(value) => ColumnsErrorModel::Invalid(value@),
            ColumnsError::OutOfRange { index, column_count } => ColumnsErrorModel::OutOfRange {
                index: *index,
                column_count: *column_count,
            },
        }
    }
}

impl ColumnsError {
    /// The message that the user sees.
    pub open spec fn message_text(self) -> Seq<char> {
        match self {
            ColumnsError::Empty => "empty column index in --columns"@,
            ColumnsError::Invalid(value) => "invalid column index: "@ + debug_form(value@),
            ColumnsError::OutOfRange { index, column_count } => "column index "@ + decimal(
                index as nat,
            ) + " is out of range; file has "@ + decimal(column_count as nat) + " columns (0.."@
                + decimal(
                if column_count == 0 {
                    0
                } else {
                    (column_count - 1) as nat
                },
            ) + ")"@,
        }
    }

    /// The message that the user sees.
    pub fn message(&self) -> (text: String)
        ensures
            text@ == self.message_text(),
    {
        match self {
            ColumnsError::Empty => "empty column index in --columns".to_owned(),
            ColumnsError::Invalid(value) => cat(
                "invalid column index: ",
                debug_text(value.as_str()).as_str(),
            ),
            ColumnsError::OutOfRange { index, column_count } => {
                let last: usize = if *column_count == 0 {
                    0
                } else {
                    *column_count - 1
                };
                let mut text = cat5(
                    "column index ",
                    decimal_text(*index as u64).as_str(),
                    " is out of range; file has ",
                    decimal_text(*column_count as u64).as_str(),
                    " columns (0..",
                );
                text.append(decimal_text(last as u64).as_str());
                text.append(")");
                text
            },
        }
    }
}

/// The column that one part of a list names.
pub open spec fn listed_column(part: Seq<char>, column_count: nat) -> Result<
    usize,
    ColumnsErrorModel,
> {
    let value = trimmed(part);
    if value.len() == 0 {
        Err(ColumnsErrorModel::Empty)
    } else {
        match parsed_unsigned(value, usize::MAX as nat) {
            None => Err(ColumnsErrorModel::Invalid(value)),
            Some(index) => if index >= column_count {
                Err(
                    ColumnsErrorModel::OutOfRange {
                        index: index as usize,
                        column_count: column_count as usize,
                    },
                )
            } else {
                Ok(index as usize)
            },
        }
    }
}

/// The columns that the parts of a list name, or what is wrong with the first bad
/// one.
pub open spec fn listed_columns(parts: Seq<Seq<char>>, column_count: nat) -> Result<
    Seq<usize>,
    ColumnsErrorModel,
>
    decreases parts.len(),
{
    if parts.len() == 0 {
        Ok(Seq::empty())
    } else {
        match listed_columns(parts.drop_last(), column_count) {
            Err(error) => Err(error),
            Ok(columns) => match listed_column(parts.last(), column_count) {
                Err(error) => Err(error),
                Ok(column) => Ok(columns.push(column)),
            },
        }
    }
}

/// The columns that an argument names: all of them where it is not given.
pub open spec fn chosen_columns(argument: Option<Seq<char>>, column_count: nat) -> Result<
    Seq<usize>,
    ColumnsErrorModel,
> {
    match argument {
        None => Ok(crate::projection::all_columns(column_count)),
        Some(list) => listed_columns(split_at(list, ','), column_count),
    }
}

proof fn lemma_listed_error(parts: Seq<Seq<char>>, column_count: nat, k: int)
    requires
        0 <= k <= parts.len(),
        listed_columns(parts.take(k), column_count) is Err,
    ensures
        listed_columns(parts, column_count) == listed_columns(parts.take(k), column_count),
    decreases parts.len() - k,
{
    if k < parts.len() {
        assert(parts.take(k + 1).drop_last() =~= parts.take(k));
        lemma_listed_error(parts, column_count, k + 1);
    } else {
        assert(parts.take(k) =~= parts);
    }
}

fn parse_column(part: &str, column_count: usize) -> (result: Result<usize, ColumnsError>)
    ensures
        match result {
            Ok(column) => listed_column(part@, column_count as nat) == Ok::<
                usize,
                ColumnsErrorModel,
            >(column),
            Err(error) => listed_column(part@, column_count as nat) == Err::<
                usize,
                ColumnsErrorModel,
            >(error@),
        },
{
    let value = trim(part);
    if chars_of(value.as_str()).len() == 0 {
        return Err(ColumnsError::Empty);
    }
    match parse_usize(value.as_str()) {
        None => Err(ColumnsError::Invalid(value)),
        Some(index) => if index >= column_count {
            Err(ColumnsError::OutOfRange { index, column_count })
        } else {
            Ok(index)
        },
    }
}

/// The columns that the argument names, in its order: all of them where it is not
/// given.
pub fn parse_columns(columns: Option<&str>, column_count: usize) -> (result: Result<
    Vec<usize>,
    ColumnsError,
>)
    ensures
        ({
            let chosen = chosen_columns(
                match columns {
                    Some(list) => Some(list@),
                    None => None,
                },
                column_count as nat,
            );
            match result {
                Ok(found) => chosen == Ok::<Seq<usize>, ColumnsErrorModel>(found@),
                Err(error) => chosen == Err::<Seq<usize>, ColumnsErrorModel>(error@),
            }
        }),
{
    let list = match columns {
        None => {
            let all = crate::projection::Projection::all(column_count);
            return Ok(all.to_vec());
        },
        Some(list) => list,
    };
    let parts = split_char(list, ',');
    let ghost wanted = texts(parts@);
    let mut found: Vec<usize> = Vec::new();
    let mut i: usize = 0;
    assert(wanted.take(0) =~= Seq::<Seq<char>>::empty());
    while i < parts.len()
        invariant
            i <= parts@.len(),
            wanted == texts(parts@),
            wanted == split_at(list@, ','),
            columns is Some,
            columns->0 == list,
            listed_columns(wanted.take(i as int), column_count as nat) == Ok::<
                Seq<usize>,
                ColumnsErrorModel,
            >(found@),
        decreases parts@.len() - i,
    {
        proof {
            assert(wanted.take(i + 1).drop_last() =~= wanted.take(i as int));
            assert(wanted.take(i + 1).last() == parts@[i as int]@);
            if listed_columns(wanted.take(i + 1), column_count as nat) is Err {
                lemma_listed_error(wanted, column_count as nat, i + 1);
            }
        }
        match parse_column(parts[i].as_str(), column_count) {
            Ok(column) => found.push(column),
            Err(error) => return Err(error),
        }
        i = i + 1;
    }
    assert(wanted.take(i as int) =~= wanted);
    Ok(found)
}

// ---------------------------------------------------------------------------
// Laws
// ---------------------------------------------------------------------------

/// Splitting undoes joining: what follows the last separator is the last part, and what
/// stands before it is split as it is; a text without a separator is one part.
pub proof fn law_parts_are_split_apart(s: Seq<char>, part: Seq<char>, c: char)
    requires
        !part.contains(c),
    ensures
        split_at(part, c) == seq![part],
        split_at(s.push(c) + part, c) == split_at(s, c).push(part),
    decreases part.len(),
{
    lemma_some_parts(s, c);
    if part.len() == 0 {
        assert(part =~= Seq::<char>::empty());
        assert(s.push(c) + part =~= s.push(c));
        assert(s.push(c).drop_last() =~= s);
    } else {
        let init = part.drop_last();
        assert forall|i: int| 0 <= i < init.len() implies init[i] != c by {
            assert(part.contains(part[i]));
        }
        law_parts_are_split_apart(s, init, c);
        assert(part.contains(part[part.len() - 1]));
        assert((s.push(c) + part).drop_last() =~= s.push(c) + init);
        assert((s.push(c) + part).last() == part.last());
        assert(init.push(part.last()) =~= part);
        assert(split_at(part, c) =~= seq![part]);
        assert(split_at(s.push(c) + part, c) =~= split_at(s, c).push(part));
    }
}

proof fn lemma_some_parts(s: Seq<char>, c: char)
    ensures
        split_at(s, c).len() > 0,
    decreases s.len(),
{
    if s.len() > 0 {
        lemma_some_parts(s.drop_last(), c);
    }
}

/// A number, with white space around it or not, names the column of that number where
/// there is one, counted from zero.
pub proof fn law_listed_number_names_its_column(
    before: Seq<char>,
    n: usize,
    after: Seq<char>,
    column_count: usize,
)
    requires
        is_blank(before),
        is_blank(after),
    ensures
        n < column_count ==> listed_column(
            before + decimal(n as nat) + after,
            column_count as nat,
        ) == Ok::<usize, ColumnsErrorModel>(n),
        n >= column_count ==> listed_column(
            before + decimal(n as nat) + after,
            column_count as nat,
        ) == Err::<usize, ColumnsErrorModel>(
            ColumnsErrorModel::OutOfRange { index: n, column_count },
        ),
{
    lemma_decimal_digits(n as nat);
    let digits = decimal(n as nat);
    assert(is_digit(digits[0]));
    assert(is_digit(digits[digits.len() - 1]));
    law_trimming_undoes_padding(before, digits, after);
    law_parse_inverts_decimal(n as nat, usize::MAX as nat);
}

/// A list names the columns of its parts, one by one, and is wrong only where a part is.
pub proof fn law_listed_columns_are_those_of_the_parts(parts: Seq<Seq<char>>, column_count: nat)
    ensures
        listed_columns(parts, column_count) is Ok <==> forall|i: int|
            0 <= i < parts.len() ==> listed_column(#[trigger] parts[i], column_count) is Ok,
        listed_columns(parts, column_count) matches Ok(columns) ==> columns.len() == parts.len()
            && forall|i: int|
            0 <= i < parts.len() ==> listed_column(#[trigger] parts[i], column_count) == Ok::<
                usize,
                ColumnsErrorModel,
            >(columns[i]),
    decreases parts.len(),
{
    if parts.len() > 0 {
        let init = parts.drop_last();
        let last = parts.len() - 1;
        law_listed_columns_are_those_of_the_parts(init, column_count);
        assert(forall|i: int| 0 <= i < init.len() ==> init[i] == #[trigger] parts[i]);
        assert(parts[last] == parts.last());
        if listed_columns(init, column_count) is Err {
            let i = choose|i: int|
                0 <= i < init.len() && !(listed_column(#[trigger] init[i], column_count) is Ok);
            assert(!(listed_column(parts[i], column_count) is Ok));
        } else {
            assert forall|i: int| 0 <= i < last implies listed_column(
                #[trigger] parts[i],
                column_count,
            ) is Ok by {
                assert(listed_column(init[i], column_count) is Ok);
            }
            if listed_columns(parts, column_count) is Ok {
                let columns = listed_columns(parts, column_count)->Ok_0;
                let before = listed_columns(init, column_count)->Ok_0;
                assert forall|i: int| 0 <= i < parts.len() implies listed_column(
                    #[trigger] parts[i],
                    column_count,
                ) == Ok::<usize, ColumnsErrorModel>(columns[i]) by {
                    if i < last {
                        assert(listed_column(init[i], column_count) == Ok::<
                            usize,
                            ColumnsErrorModel,
                        >(before[i]));
                    }
                }
            }
        }
    }
}

/// A text that is aligned fills its field and stays as it is, with spaces on one side of
/// it.
pub proof fn law_aligned_text_fills_its_field(s: Seq<char>, width: nat)
    requires
        s.len() <= width,
    ensures
        left_aligned(s, width).len() == width,
        right_aligned(s, width).len() == width,
        left_aligned(s, width).take(s.len() as int) == s,
        right_aligned(s, width).skip(width - s.len()) == s,
        forall|i: int| s.len() <= i < width ==> #[trigger] left_aligned(s, width)[i] == ' ',
        forall|i: int| 0 <= i < width - s.len() ==> #[trigger] right_aligned(s, width)[i] == ' ',
{
    assert(left_aligned(s, width).take(s.len() as int) =~= s);
    assert(right_aligned(s, width).skip(width - s.len()) =~= s);
}

/// A text that is longer than its field is cut to fill it: it begins alike, up to the
/// ellipsis at its end.
pub proof fn law_long_text_is_cut_to_its_field(s: Seq<char>, width: nat)
    requires
        width > 0,
    ensures
        s.len() <= width ==> cut_to_width(s, width) == s,
        s.len() > width ==> ({
            let cut = cut_to_width(s, width);
            &&& cut.len() == width
            &&& cut.last() == '…'
            &&& cut.drop_last().is_prefix_of(s)
        }),
{
    reveal_strlit("…");
    if s.len() > width {
        assert(cut_to_width(s, width).drop_last() =~= s.take(width - 1));
    }
}

/// A column is as wide as its widest text, its heading counted, within the bounds for
/// columns.
pub proof fn law_column_is_as_wide_as_its_texts(
    headers: Seq<Seq<char>>,
    cells: Seq<Seq<Seq<char>>>,
    column: int,
    row: int,
)
    requires
        0 <= row < cells.len(),
    ensures
        MIN_COLUMN_WIDTH <= column_width(headers, cells, column) <= MAX_COLUMN_WIDTH,
        headers[column].len() <= MAX_COLUMN_WIDTH ==> headers[column].len() <= column_width(
            headers,
            cells,
            column,
        ),
        cells[row][column].len() <= MAX_COLUMN_WIDTH ==> cells[row][column].len() <= column_width(
            headers,
            cells,
            column,
        ),
        column_width(headers, cells, column) > MIN_COLUMN_WIDTH ==> column_width(
            headers,
            cells,
            column,
        ) <= headers[column].len() || exists|i: int|
            0 <= i < cells.len() && column_width(headers, cells, column) <= (
            #[trigger] cells[i])[column].len(),
{
    lemma_longest(cells, column, cells.len());
    assert(cells[row][column].len() <= longest(cells, column, cells.len()));
    if longest(cells, column, cells.len()) > 0 {
        let i = choose|i: int|
            0 <= i < cells.len() && (#[trigger] cells[i])[column].len() == longest(
                cells,
                column,
                cells.len(),
            );
        assert(cells[i][column].len() == longest(cells, column, cells.len()));
    }
}

proof fn lemma_longest(cells: Seq<Seq<Seq<char>>>, column: int, count: nat)
    requires
        count <= cells.len(),
    ensures
        forall|i: int|
            0 <= i < count ==> (#[trigger] cells[i])[column].len() <= longest(
                cells,
                column,
                count,
            ),
        longest(cells, column, count) > 0 ==> exists|i: int|
            0 <= i < count && (#[trigger] cells[i])[column].len() == longest(cells, column, count),
    decreases count,
{
    if count > 0 {
        lemma_longest(cells, column, (count - 1) as nat);
        assert(cells[count - 1][column].len() <= longest(cells, column, count));
    }
}

/// The lines of a table are as long as the rules between them, where no value is longer than
/// its field.
pub proof fn law_table_lines_are_aligned(
    label: Seq<char>,
    label_width: nat,
    values: Seq<Seq<char>>,
    widths: Seq<nat>,
    corners: (char, char, char),
)
    requires
        label.len() <= label_width,
        values.len() == widths.len(),
        forall|i: int| 0 <= i < values.len() ==> (#[trigger] values[i]).len() <= widths[i],
    ensures
        line_text(label, label_width, values, widths).len() == rule_text(
            seq![label_width] + widths,
            corners.0,
            corners.1,
            corners.2,
            widths.len() + 1,
        ).len(),
{
    reveal_strlit("│ ");
    reveal_strlit(" │");
    let start = "│ "@ + right_aligned(label, label_width) + " │"@;
    let all = seq![label_width] + widths;
    reveal_with_fuel(rule_text, 2);
    assert(all[0] == label_width);
    assert(rule_text(all, corners.0, corners.1, corners.2, 1).len() == label_width + 4);
    lemma_aligned_lengths(start, values, widths, label_width, corners, values.len());
}

proof fn lemma_aligned_lengths(
    start: Seq<char>,
    values: Seq<Seq<char>>,
    widths: Seq<nat>,
    label_width: nat,
    corners: (char, char, char),
    count: nat,
)
    requires
        values.len() == widths.len(),
        count <= values.len(),
        start.len() == rule_text(
            seq![label_width] + widths,
            corners.0,
            corners.1,
            corners.2,
            1,
        ).len(),
        forall|i: int| 0 <= i < values.len() ==> (#[trigger] values[i]).len() <= widths[i],
    ensures
        fields_text(start, values, widths, count).len() == rule_text(
            seq![label_width] + widths,
            corners.0,
            corners.1,
            corners.2,
            count + 1,
        ).len(),
    decreases count,
{
    let all = seq![label_width] + widths;
    if count > 0 {
        lemma_aligned_lengths(start, values, widths, label_width, corners, (count - 1) as nat);
        reveal_strlit(" ");
        reveal_strlit(" │");
        assert(all[count as int] == widths[count - 1]);
        law_aligned_text_fills_its_field(values[count - 1], widths[count - 1]);
    }
}

} // verus!
