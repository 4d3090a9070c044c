//! Writing rows out: the text of comma-separated values, and how an export ends.

use crate::runtime::GenerationId;
use crate::schema::{field_names, DataType, Field};
use crate::text::{
    cat3, chars_of, decimal, decimal_text, law_signed_decimal_reads_back, parsed_unsigned,
    signed_decimal, signed_decimal_text,
};
use crate::value::{hex, hex_text, law_hex_digits_tell_bytes_apart, CellValue};
use vstd::prelude::*;
use vstd::string::StringExecFns;

verus! {

/// What rows are written as.
#[derive(Clone, Copy, Debug, PartialEq, Eq, Structural)]
pub enum ExportFormat {
    Csv,
    Parquet,
}

/// What an export reports.
#[derive(Debug, PartialEq, Eq)]
pub enum ExportEvent {
    Progress { generation: GenerationId, rows: u64 },
    Finished { generation: GenerationId, rows: u64 },
    Cancelled { generation: GenerationId },
    Failed { generation: GenerationId, error: String },
}

/// Why rows cannot be written as comma-separated values.
#[derive(Clone, Copy, Debug, PartialEq, Eq, Structural)]
pub enum CsvError {
    /// The type of this column is not supported.
    Type(usize),
    /// A value of this column is not supported.
    Value(usize),
}

impl ExportFormat {
    pub open spec fn label_text(self) -> Seq<char> {
        match self {
            ExportFormat::Csv => "CSV"@,
            ExportFormat::Parquet => "Parquet"@,
        }
    }

    pub open spec fn extension_text(self) -> Seq<char> {
        match self {
            ExportFormat::Csv => "csv"@,
            ExportFormat::Parquet => "parquet"@,
        }
    }

    pub fn label(self) -> (label: &'static str)
        ensures
            label@ == self.label_text(),
    {
        match self {
            ExportFormat::Csv => "CSV",
            ExportFormat::Parquet => "Parquet",
        }
    }

    pub fn extension(self) -> (extension: &'static str)
        ensures
            extension@ == self.extension_text(),
    {
        match self {
            ExportFormat::Csv => "csv",
            ExportFormat::Parquet => "parquet",
        }
    }
}

/// What an export that has come to an end reports. Whatever it came to, one that
/// was cancelled reports that.
pub fn export_event(result: Result<u64, String>, cancelled: bool, generation: GenerationId) -> (event:
    ExportEvent)
    ensures
        event == (if cancelled {
            ExportEvent::Cancelled { generation }
        } else {
            match result {
                Ok(rows) => ExportEvent::Finished { generation, rows },
                Err(error) => ExportEvent::Failed { generation, error },
            }
        }),
{
    if cancelled {
        return ExportEvent::Cancelled { generation };
    }
    match result {
        Ok(rows) => ExportEvent::Finished { generation, rows },
        Err(error) => ExportEvent::Failed { generation, error },
    }
}

/// Whether what was written is put in place: otherwise it is removed.
pub fn keeps_output(failed: bool, cancelled: bool) -> (keep: bool)
    ensures
        keep == !(failed || cancelled),
{
    !failed && !cancelled
}

/// How many rows were written, once `more` are.
pub fn rows_written(rows: u64, more: usize) -> (total: u64)
    ensures
        total == crate::page::smaller(rows + more, u64::MAX as int),
{
    rows.saturating_add(more as u64)
}

/// The name of the file that is written before it is put in place.
pub open spec fn temporary_name_text(name: Seq<char>, generation: GenerationId) -> Seq<char> {
    name + ".pavi-"@ + decimal(generation.0 as nat) + ".tmp"@
}

/// The name of the file that is written before it is put in place of one with
/// this name.
pub fn temporary_name(name: Option<&str>, generation: GenerationId) -> (temporary: String)
    ensures
        temporary@ == temporary_name_text(
            match name {
                Some(name) => name@,
                None => "export"@,
            },
            generation,
        ),
{
    let base = match name {
        Some(name) => name,
        None => "export",
    };
    let mut temporary = cat3(base, ".pavi-", decimal_text(generation.0).as_str());
    temporary.append(".tmp");
    temporary
}

// ---------------------------------------------------------------------------
// Comma-separated values
// ---------------------------------------------------------------------------

/// The types whose values can be written.
pub open spec fn csv_type(data_type: DataType) -> bool {
    data_type.numeric() || data_type == DataType::Boolean || data_type == DataType::Utf8
        || data_type == DataType::LargeUtf8 || data_type == DataType::Binary || data_type
        == DataType::LargeBinary || data_type == DataType::Date32 || data_type == DataType::Date64
        || data_type is Timestamp
}

/// Whether a character cannot stand in a field that is not quoted.
pub open spec fn is_special(c: char) -> bool {
    c == ',' || c == '"' || c == '\n' || c == '\r'
}

/// Whether a text has to be quoted.
pub open spec fn needs_quotes(s: Seq<char>) -> bool {
    exists|i: int| 0 <= i < s.len() && is_special(#[trigger] s[i])
}

/// `s` with every quote doubled.
pub open spec fn doubled(s: Seq<char>) -> Seq<char>
    decreases s.len(),
{
    if s.len() == 0 {
        Seq::empty()
    } else if s.last() == '"' {
        doubled(s.drop_last()).push('"').push('"')
    } else {
        doubled(s.drop_last()).push(s.last())
    }
}

/// A text as a field.
pub open spec fn csv_text(s: Seq<char>) -> Seq<char> {
    if needs_quotes(s) {
        seq!['"'] + doubled(s) + seq!['"']
    } else {
        s
    }
}

/// What a field says of a value; none where values of its kind are not written.
pub open spec fn csv_content(value: CellValue) -> Option<Seq<char>> {
    match value {
        CellValue::Null => Some(Seq::empty()),
        CellValue::Boolean(flag) => Some(
            if flag {
                "true"@
            } else {
                "false"@
            },
        ),
        CellValue::Signed(n) => Some(signed_decimal(n as int)),
        CellValue::Unsigned(n) => Some(decimal(n as nat)),
        CellValue::Written(text) => Some(text@),
        CellValue::Text(text) => Some(text@),
        CellValue::Binary(bytes) => Some("0x"@ + hex_text(bytes@)),
        CellValue::Date32(days) => Some(signed_decimal(days as int)),
        CellValue::Date64(ms) => Some(signed_decimal(ms as int)),
        CellValue::Timestamp { value, .. } => Some(signed_decimal(value as int)),
        _ => None,
    }
}

/// A value as a field: texts are quoted where they have to be.
pub open spec fn csv_field(value: CellValue) -> Option<Seq<char>> {
    match value {
        CellValue::Text(text) => Some(csv_text(text@)),
        _ => csv_content(value),
    }
}

/// The first `count` fields with commas between them.
pub open spec fn joined(fields: Seq<Seq<char>>, count: nat) -> Seq<char>
    decreases count,
{
    if count == 0 {
        Seq::empty()
    } else if count == 1 {
        fields[0]
    } else {
        joined(fields, (count - 1) as nat) + seq![','] + fields[count - 1]
    }
}

/// A line of fields.
pub open spec fn csv_line(fields: Seq<Seq<char>>) -> Seq<char> {
    joined(fields, fields.len()) + seq!['\n']
}

/// The line of the names of the columns.
pub open spec fn header_line(names: Seq<Seq<char>>) -> Seq<char> {
    csv_line(names.map_values(|name: Seq<char>| csv_text(name)))
}

/// The fields of a row; none where one of its values is not written.
pub open spec fn row_fields(row: Seq<CellValue>) -> Seq<Seq<char>> {
    row.map_values(|value: CellValue| csv_field(value)->0)
}

/// The first value of a row that cannot be written.
pub open spec fn unwritable(row: Seq<CellValue>, from: int) -> Option<int>
    decreases row.len() - from,
{
    if from < 0 || from >= row.len() {
        None
    } else if csv_field(row[from]) is None {
        Some(from)
    } else {
        unwritable(row, from + 1)
    }
}

/// The lines of the first `count` rows.
pub open spec fn row_lines(rows: Seq<Vec<CellValue>>, count: nat) -> Seq<char>
    decreases count,
{
    if count == 0 {
        Seq::empty()
    } else {
        row_lines(rows, (count - 1) as nat) + csv_line(row_fields(rows[count - 1]@))
    }
}

/// Whether every value of these rows can be written.
pub open spec fn all_writable(rows: Seq<Vec<CellValue>>) -> bool {
    forall|r: int| 0 <= r < rows.len() ==> unwritable((#[trigger] rows[r])@, 0) is None
}

/// Whether values of this type can be written.
pub fn ensure_csv_type(data_type: DataType) -> (supported: bool)
    ensures
        supported == csv_type(data_type),
{
    match data_type {
        DataType::Boolean
        | DataType::Int8
        | DataType::Int16
        | DataType::Int32
        | DataType::Int64
        | DataType::UInt8
        | DataType::UInt16
        | DataType::UInt32
        | DataType::UInt64
        | DataType::Float32
        | DataType::Float64
        | DataType::Utf8
        | DataType::LargeUtf8
        | DataType::Binary
        | DataType::LargeBinary
        | DataType::Date32
        | DataType::Date64
        | DataType::Timestamp { .. } => true,
        _ => false,
    }
}

impl CsvError {
    /// The message that the user sees, over these columns.
    pub open spec fn message_text(self, fields: Seq<Field>) -> Seq<char> {
        "CSV export does not support "@ + match self {
            CsvError::Type(column) | CsvError::Value(column) => crate::source::type_text_of(
                fields,
                column as int,
            ),
        }
    }

    /// The message that the user sees, over these columns.
    pub fn message(&self, fields: &Vec<Field>) -> (text: String)
        ensures
            text@ == self.message_text(fields@),
    {
        let column: usize = match self {
            CsvError::Type(column) => *column,
            CsvError::Value(column) => *column,
        };
        let data_type = if column < fields.len() {
            fields[column].type_text.as_str()
        } else {
            ""
        };
        crate::text::cat("CSV export does not support ", data_type)
    }
}

fn has_special(chars: &Vec<char>) -> (yes: bool)
    ensures
        yes == needs_quotes(chars@),
{
    let mut i: usize = 0;
    while i < chars.len()
        invariant
            i <= chars@.len(),
            forall|k: int| 0 <= k < i ==> !is_special(#[trigger] chars@[k]),
        decreases chars@.len() - i,
    {
        let c: char = chars[i];
        if c == ',' || c == '"' || c == '\n' || c == '\r' {
            assert(is_special(chars@[i as int]));
            return true;
        }
        i = i + 1;
    }
    false
}

/// Writes a text as a field.
pub fn write_csv_text(out: &mut String, value: &str)
    ensures
        final(out)@ == old(out)@ + csv_text(value@),
{
    let chars = chars_of(value);
    if !has_special(&chars) {
        out.append(value);
        return;
    }
    let ghost before = out@;
    out.push('"');
    let mut i: usize = 0;
    assert(out@ =~= before + seq!['"'] + doubled(chars@.take(0)));
    while i < chars.len()
        invariant
            i <= chars@.len(),
            out@ == before + seq!['"'] + doubled(chars@.take(i as int)),
        decreases chars@.len() - i,
    {
        let ghost so_far = doubled(chars@.take(i as int));
        let c: char = chars[i];
        proof {
            assert(chars@.take(i + 1).drop_last() =~= chars@.take(i as int));
        }
        out.push(c);
        if c == '"' {
            out.push('"');
        }
        i = i + 1;
        assert(out@ =~= before + seq!['"'] + doubled(chars@.take(i as int)));
    }
    out.push('"');
    assert(chars@.take(i as int) =~= value@);
    assert(out@ =~= before + (seq!['"'] + doubled(value@) + seq!['"']));
}

/// Writes a value as a field, and says whether values of its kind are written.
pub fn write_csv_value(out: &mut String, value: &CellValue) -> (written: bool)
    ensures
        written == (csv_field(*value) is Some),
        final(out)@ == (match csv_field(*value) {
            Some(field) => old(out)@ + field,
            None => old(out)@,
        }),
{
    match value {
        CellValue::Null => {
            assert(out@ =~= out@ + Seq::<char>::empty());
            true
        },
        CellValue::Boolean(flag) => {
            out.append(
                if *flag {
                    "true"
                } else {
                    "false"
                },
            );
            true
        },
        CellValue::Signed(n) => {
            out.append(signed_decimal_text(*n).as_str());
            true
        },
        CellValue::Unsigned(n) => {
            out.append(decimal_text(*n).as_str());
            true
        },
        CellValue::Written(text) => {
            out.append(text.as_str());
            true
        },
        CellValue::Text(text) => {
            write_csv_text(out, text.as_str());
            true
        },
        CellValue::Binary(bytes) => {
            let ghost before = out@;
            out.append("0x");
            out.append(hex(bytes, bytes.len()).as_str());
            assert(bytes@.take(bytes@.len() as int) =~= bytes@);
            assert(out@ =~= before + ("0x"@ + hex_text(bytes@)));
            true
        },
        CellValue::Date32(days) => {
            out.append(signed_decimal_text(*days as i64).as_str());
            true
        },
        CellValue::Date64(ms) => {
            out.append(signed_decimal_text(*ms).as_str());
            true
        },
        CellValue::Timestamp { value, .. } => {
            out.append(signed_decimal_text(*value).as_str());
            true
        },
        _ => false,
    }
}

/// The line of the names of the columns, unless a column has a type whose values
/// are not written.
pub fn csv_header(fields: &Vec<Field>) -> (result: Result<String, CsvError>)
    ensures
        match result {
            Ok(line) => line@ == header_line(field_names(fields@)) && forall|i: int|
                0 <= i < fields@.len() ==> csv_type((#[trigger] fields@[i]).data_type),
            Err(error) => error matches CsvError::Type(column) && column < fields@.len()
                && !csv_type(fields@[column as int].data_type) && forall|i: int|
                0 <= i < column ==> csv_type((#[trigger] fields@[i]).data_type),
        },
{
    let mut column: usize = 0;
    while column < fields.len()
        invariant
            column <= fields@.len(),
            forall|i: int| 0 <= i < column ==> csv_type((#[trigger] fields@[i]).data_type),
        decreases fields@.len() - column,
    {
        if !ensure_csv_type(fields[column].data_type) {
            return Err(CsvError::Type(column));
        }
        column = column + 1;
    }
    let ghost texts = field_names(fields@).map_values(|name: Seq<char>| csv_text(name));
    let mut line = String::new();
    let mut i: usize = 0;
    assert(line@ =~= joined(texts, 0));
    while i < fields.len()
        invariant
            i <= fields@.len(),
            texts == field_names(fields@).map_values(|name: Seq<char>| csv_text(name)),
            line@ == joined(texts, i as nat),
        decreases fields@.len() - i,
    {
        let ghost before = line@;
        assert(texts[i as int] == csv_text(fields@[i as int].name@));
        if i > 0 {
            line.push(',');
        }
        write_csv_text(&mut line, fields[i].name.as_str());
        i = i + 1;
        assert(line@ =~= joined(texts, i as nat));
    }
    let ghost before = line@;
    line.push('\n');
    assert(line@ =~= before + seq!['\n']);
    Ok(line)
}

fn write_row(out: &mut String, row: &Vec<CellValue>) -> (result: Result<(), CsvError>)
    ensures
        match unwritable(row@, 0) {
            None => result is Ok && final(out)@ == old(out)@ + csv_line(row_fields(row@)),
            Some(column) => result == Err::<(), CsvError>(CsvError::Value(column as usize)),
        },
{
    let ghost fields = row_fields(row@);
    let ghost start = out@;
    let mut i: usize = 0;
    assert(out@ =~= start + joined(fields, 0));
    while i < row.len()
        invariant
            i <= row@.len(),
            fields == row_fields(row@),
            out@ == start + joined(fields, i as nat),
            unwritable(row@, 0) == unwritable(row@, i as int),
        decreases row@.len() - i,
    {
        if i > 0 {
            out.push(',');
        }
        let ghost before = out@;
        let written = write_csv_value(out, &row[i]);
        if !written {
            return Err(CsvError::Value(i));
        }
        assert(fields[i as int] == csv_field(row@[i as int])->0);
        i = i + 1;
        assert(out@ =~= start + joined(fields, i as nat));
    }
    out.push('\n');
    assert(out@ =~= start + csv_line(fields));
    Ok(())
}

/// The lines of these rows, unless a value is not written.
pub fn csv_rows(rows: &Vec<Vec<CellValue>>) -> (result: Result<String, CsvError>)
    ensures
        match result {
            Ok(lines) => all_writable(rows@) && lines@ == row_lines(rows@, rows@.len()),
            Err(error) => exists|r: int|
                0 <= r < rows@.len() && (#[trigger] unwritable(rows@[r]@, 0)) is Some && error
                    == CsvError::Value(unwritable(rows@[r]@, 0)->0 as usize) && forall|k: int|
                    0 <= k < r ==> unwritable((#[trigger] rows@[k])@, 0) is None,
        },
{
    let mut lines = String::new();
    let mut i: usize = 0;
    assert(lines@ =~= row_lines(rows@, 0));
    while i < rows.len()
        invariant
            i <= rows@.len(),
            lines@ == row_lines(rows@, i as nat),
            forall|k: int| 0 <= k < i ==> unwritable((#[trigger] rows@[k])@, 0) is None,
        decreases rows@.len() - i,
    {
        match write_row(&mut lines, &rows[i]) {
            Ok(()) => {},
            Err(error) => {
                assert(unwritable(rows@[i as int]@, 0) is Some);
                return Err(error);
            },
        }
        i = i + 1;
    }
    Ok(lines)
}

// ---------------------------------------------------------------------------
// Reading back
// ---------------------------------------------------------------------------

/// Where a reader of comma-separated values stands.
pub enum CsvMode {
    /// Before a field.
    Start,
    /// In a field that is not quoted.
    Plain,
    /// Between the quotes of a field.
    Quoted,
    /// Behind a quote of a quoted field: its end, or half of a doubled quote.
    Closed,
}

/// The first record of a text, read as comma-separated values are, and what
/// follows it. `done` are the fields that were read, `current` is the part of the
/// next one.
pub open spec fn read_record(
    s: Seq<char>,
    mode: CsvMode,
    done: Seq<Seq<char>>,
    current: Seq<char>,
) -> Option<(Seq<Seq<char>>, Seq<char>)>
    decreases s.len(),
{
    if s.len() == 0 {
        None
    } else {
        let c = s[0];
        let rest = s.skip(1);
        match mode {
            CsvMode::Quoted => if c == '"' {
                read_record(rest, CsvMode::Closed, done, current)
            } else {
                read_record(rest, CsvMode::Quoted, done, current.push(c))
            },
            CsvMode::Closed => if c == '"' {
                read_record(rest, CsvMode::Quoted, done, current.push(c))
            } else if c == ',' {
                read_record(rest, CsvMode::Start, done.push(current), Seq::empty())
            } else if c == '\n' {
                Some((done.push(current), rest))
            } else {
                None
            },
            CsvMode::Start | CsvMode::Plain => if c == '"' && mode is Start {
                read_record(rest, CsvMode::Quoted, done, current)
            } else if c == ',' {
                read_record(rest, CsvMode::Start, done.push(current), Seq::empty())
            } else if c == '\n' {
                Some((done.push(current), rest))
            } else {
                read_record(rest, CsvMode::Plain, done, current.push(c))
            },
        }
    }
}

proof fn lemma_read_plain(
    s: Seq<char>,
    tail: Seq<char>,
    done: Seq<Seq<char>>,
)
    requires
        !needs_quotes(s),
    ensures
        read_record(s + tail, CsvMode::Start, done, Seq::empty()) == read_record(
            tail,
            if s.len() == 0 {
                CsvMode::Start
            } else {
                CsvMode::Plain
            },
            done,
            s,
        ),
    decreases s.len(),
{
    if s.len() == 0 {
        assert(s + tail =~= tail);
        assert(s =~= Seq::<char>::empty());
    } else {
        let init = s.drop_last();
        let next = seq![s.last()] + tail;
        assert(!needs_quotes(init)) by {
            assert forall|i: int| 0 <= i < init.len() implies !is_special(#[trigger] init[i]) by {
                assert(!is_special(s[i]));
            }
        }
        assert(!is_special(s[s.len() - 1]));
        lemma_read_plain(init, next, done);
        assert(init + next =~= s + tail);
        assert(next.skip(1) =~= tail);
        assert(init.push(s.last()) =~= s);
    }
}

proof fn lemma_read_doubled(
    s: Seq<char>,
    tail: Seq<char>,
    done: Seq<Seq<char>>,
)
    ensures
        read_record(doubled(s) + tail, CsvMode::Quoted, done, Seq::empty()) == read_record(
            tail,
            CsvMode::Quoted,
            done,
            s,
        ),
    decreases s.len(),
{
    if s.len() == 0 {
        assert(doubled(s) + tail =~= tail);
        assert(s =~= Seq::<char>::empty());
    } else {
        let init = s.drop_last();
        let c = s.last();
        assert(init.push(c) =~= s);
        if c == '"' {
            let next = seq!['"', '"'] + tail;
            lemma_read_doubled(init, next, done);
            assert(doubled(init) + next =~= doubled(s) + tail);
            assert(next.skip(1) =~= seq!['"'] + tail);
            assert(next.skip(1).skip(1) =~= tail);
            reveal_with_fuel(read_record, 3);
        } else {
            let next = seq![c] + tail;
            lemma_read_doubled(init, next, done);
            assert(doubled(init) + next =~= doubled(s) + tail);
            assert(next.skip(1) =~= tail);
        }
    }
}

/// A text that was written as a field is read back, whether a comma or the end of
/// the line follows.
proof fn lemma_read_field(s: Seq<char>, end: char, tail: Seq<char>, done: Seq<Seq<char>>)
    requires
        end == ',' || end == '\n',
    ensures
        read_record(csv_text(s) + (seq![end] + tail), CsvMode::Start, done, Seq::empty()) == (
        if end == ',' {
            read_record(tail, CsvMode::Start, done.push(s), Seq::empty())
        } else {
            Some((done.push(s), tail))
        }),
{
    let after = seq![end] + tail;
    assert(after.skip(1) =~= tail);
    if needs_quotes(s) {
        let inner = seq!['"'] + after;
        let whole = csv_text(s) + after;
        assert(whole.skip(1) =~= doubled(s) + inner);
        assert(whole[0] == '"');
        lemma_read_doubled(s, inner, done);
        assert(inner.skip(1) =~= after);
        reveal_with_fuel(read_record, 3);
    } else {
        lemma_read_plain(s, after, done);
    }
}

proof fn lemma_read_joined(
    texts: Seq<Seq<char>>,
    count: nat,
    tail: Seq<char>,
)
    requires
        0 < count <= texts.len(),
    ensures
        read_record(
            joined(texts.map_values(|text: Seq<char>| csv_text(text)), count) + (seq![','] + tail),
            CsvMode::Start,
            Seq::empty(),
            Seq::empty(),
        ) == read_record(tail, CsvMode::Start, texts.take(count as int), Seq::empty()),
    decreases count,
{
    let fields = texts.map_values(|text: Seq<char>| csv_text(text));
    if count == 1 {
        lemma_read_field(texts[0], ',', tail, Seq::empty());
        assert(Seq::<Seq<char>>::empty().push(texts[0]) =~= texts.take(1));
    } else {
        let last = texts[count - 1];
        let next = csv_text(last) + (seq![','] + tail);
        lemma_read_joined(texts, (count - 1) as nat, next);
        assert(joined(fields, count) + (seq![','] + tail) =~= joined(fields, (count - 1) as nat) + (
        seq![','] + next));
        lemma_read_field(last, ',', tail, texts.take(count - 1));
        assert(texts.take(count - 1).push(last) =~= texts.take(count as int));
    }
}

/// A line of texts is read back as these texts, and nothing of what follows it is
/// taken for part of it.
pub proof fn law_csv_line_reads_back(texts: Seq<Seq<char>>, tail: Seq<char>)
    requires
        texts.len() > 0,
    ensures
        read_record(
            csv_line(texts.map_values(|text: Seq<char>| csv_text(text))) + tail,
            CsvMode::Start,
            Seq::empty(),
            Seq::empty(),
        ) == Some((texts, tail)),
{
    let fields = texts.map_values(|text: Seq<char>| csv_text(text));
    let count = texts.len();
    let last = texts[count - 1];
    let line = csv_line(fields) + tail;
    if count == 1 {
        assert(line =~= csv_text(last) + (seq!['\n'] + tail));
        lemma_read_field(last, '\n', tail, Seq::empty());
        assert(Seq::<Seq<char>>::empty().push(last) =~= texts);
    } else {
        let next = csv_text(last) + (seq!['\n'] + tail);
        assert(line =~= joined(fields, (count - 1) as nat) + (seq![','] + next));
        lemma_read_joined(texts, (count - 1) as nat, next);
        lemma_read_field(last, '\n', tail, texts.take(count - 1));
        assert(texts.take(count - 1).push(last) =~= texts);
    }
}

/// Whether a value can be told from its field: numbers that are given by their
/// text hold nothing that would have to be quoted.
pub open spec fn reads_back(value: CellValue) -> bool {
    csv_content(value) is Some && match value {
        CellValue::Written(text) => !needs_quotes(text@),
        _ => true,
    }
}

proof fn lemma_decimal_plain(n: nat)
    ensures
        !needs_quotes(decimal(n)),
        decimal(n).len() > 0,
    decreases n,
{
    if n >= 10 {
        lemma_decimal_plain(n / 10);
        let init = decimal(n / 10);
        assert forall|i: int| 0 <= i < decimal(n).len() implies !is_special(#[trigger] decimal(n)[i]) by {
            if i < init.len() {
                assert(!is_special(init[i]));
            }
        }
    } else {
        assert forall|i: int| 0 <= i < decimal(n).len() implies !is_special(#[trigger] decimal(n)[i]) by {}
    }
}

proof fn lemma_signed_plain(n: int)
    ensures
        !needs_quotes(signed_decimal(n)),
{
    if n < 0 {
        lemma_decimal_plain((-n) as nat);
        let digits = decimal((-n) as nat);
        assert forall|i: int| 0 <= i < signed_decimal(n).len() implies !is_special(
            #[trigger] signed_decimal(n)[i],
        ) by {
            if i > 0 {
                assert(!is_special(digits[i - 1]));
            }
        }
    } else {
        lemma_decimal_plain(n as nat);
    }
}

proof fn lemma_hex_plain(bytes: Seq<u8>)
    ensures
        !needs_quotes(hex_text(bytes)),
    decreases bytes.len(),
{
    if bytes.len() > 0 {
        lemma_hex_plain(bytes.drop_last());
        let init = hex_text(bytes.drop_last());
        assert forall|i: int| 0 <= i < hex_text(bytes).len() implies !is_special(
            #[trigger] hex_text(bytes)[i],
        ) by {
            if i < init.len() {
                assert(!is_special(init[i]));
            }
        }
    }
}

proof fn lemma_field_is_text(value: CellValue)
    requires
        reads_back(value),
    ensures
        csv_field(value)->0 == csv_text(csv_content(value)->0),
{
    match value {
        CellValue::Boolean(flag) => {
            reveal_strlit("true");
            reveal_strlit("false");
            let text = csv_content(value)->0;
            assert forall|i: int| 0 <= i < text.len() implies !is_special(#[trigger] text[i]) by {}
        },
        CellValue::Signed(n) => lemma_signed_plain(n as int),
        CellValue::Unsigned(n) => lemma_decimal_plain(n as nat),
        CellValue::Binary(bytes) => {
            lemma_hex_plain(bytes@);
            reveal_strlit("0x");
            let text = csv_content(value)->0;
            assert forall|i: int| 0 <= i < text.len() implies !is_special(#[trigger] text[i]) by {
                if i >= 2 {
                    assert(!is_special(hex_text(bytes@)[i - 2]));
                }
            }
        },
        CellValue::Date32(days) => lemma_signed_plain(days as int),
        CellValue::Date64(ms) => lemma_signed_plain(ms as int),
        CellValue::Timestamp { value, .. } => lemma_signed_plain(value as int),
        _ => {},
    }
}

/// A row that was written is read back: each field says what the value does.
pub proof fn law_csv_row_reads_back(row: Seq<CellValue>, tail: Seq<char>)
    requires
        row.len() > 0,
        forall|i: int| 0 <= i < row.len() ==> reads_back(#[trigger] row[i]),
    ensures
        read_record(
            csv_line(row_fields(row)) + tail,
            CsvMode::Start,
            Seq::empty(),
            Seq::empty(),
        ) == Some((row.map_values(|value: CellValue| csv_content(value)->0), tail)),
{
    let texts = row.map_values(|value: CellValue| csv_content(value)->0);
    assert forall|i: int| 0 <= i < row.len() implies #[trigger] row_fields(row)[i] == csv_text(
        texts[i],
    ) by {
        lemma_field_is_text(row[i]);
    }
    assert(row_fields(row) =~= texts.map_values(|text: Seq<char>| csv_text(text)));
    law_csv_line_reads_back(texts, tail);
}

/// What stands in a field says what the value is: nothing for a null, a word for a truth
/// value, the digits of a number, the text itself, and two digits for each byte.
pub proof fn law_fields_say_what_values_are(value: CellValue)
    ensures
        match value {
            CellValue::Null => csv_content(value) == Some(Seq::<char>::empty()),
            CellValue::Boolean(flag) => csv_content(value) == Some(
                if flag {
                    "true"@
                } else {
                    "false"@
                },
            ),
            CellValue::Signed(n) => csv_content(value) matches Some(text) && says_number(
                text,
                n as int,
            ),
            CellValue::Unsigned(n) => csv_content(value) matches Some(text) && says_number(
                text,
                n as int,
            ),
            CellValue::Date32(n) => csv_content(value) matches Some(text) && says_number(
                text,
                n as int,
            ),
            CellValue::Date64(n) => csv_content(value) matches Some(text) && says_number(
                text,
                n as int,
            ),
            CellValue::Timestamp { value: n, .. } => csv_content(value) matches Some(text)
                && says_number(text, n as int),
            CellValue::Text(text) => csv_content(value) == Some(text@),
            CellValue::Written(text) => csv_content(value) == Some(text@),
            CellValue::Binary(bytes) => csv_content(value) matches Some(text) && text.len() == 2 + 2
                * bytes@.len() && text.take(2) == seq!['0', 'x'] && text.skip(2) == hex_text(
                bytes@,
            ),
            _ => csv_content(value) is None,
        },
{
    let max = u64::MAX as nat;
    match value {
        CellValue::Signed(n) => law_signed_decimal_reads_back(n as int, max),
        CellValue::Unsigned(n) => law_signed_decimal_reads_back(n as int, max),
        CellValue::Date32(n) => law_signed_decimal_reads_back(n as int, max),
        CellValue::Date64(n) => law_signed_decimal_reads_back(n as int, max),
        CellValue::Timestamp { value: n, .. } => law_signed_decimal_reads_back(n as int, max),
        CellValue::Binary(bytes) => {
            reveal_strlit("0x");
            law_hex_digits_tell_bytes_apart(bytes@, bytes@);
            let text = "0x"@ + hex_text(bytes@);
            assert(text.take(2) =~= seq!['0', 'x']);
            assert(text.skip(2) =~= hex_text(bytes@));
        },
        _ => {},
    }
}

/// Whether a text writes a number: its digits, with a minus sign where it is negative.
pub open spec fn says_number(text: Seq<char>, n: int) -> bool {
    if n >= 0 {
        parsed_unsigned(text, u64::MAX as nat) == Some(n as nat)
    } else {
        text.len() > 1 && text[0] == '-' && parsed_unsigned(text.drop_first(), u64::MAX as nat)
            == Some((-n) as nat)
    }
}

/// Rows are written in their order, each on lines of its own: what is written begins with the
/// first row, and what follows is what is written of the others.
pub proof fn law_rows_are_written_in_order(rows: Seq<Vec<CellValue>>, count: nat)
    requires
        0 < count <= rows.len(),
    ensures
        row_lines(rows, count) == csv_line(row_fields(rows[0]@)) + row_lines(
            rows.skip(1),
            (count - 1) as nat,
        ),
    decreases count,
{
    let rest = rows.skip(1);
    if count == 1 {
        assert(row_lines(rows, 0) + csv_line(row_fields(rows[0]@)) =~= csv_line(
            row_fields(rows[0]@),
        ) + row_lines(rest, 0));
    } else {
        let fewer = (count - 1) as nat;
        law_rows_are_written_in_order(rows, fewer);
        assert(rest[count - 2] == rows[count - 1]);
        assert(row_lines(rows, count) =~= csv_line(row_fields(rows[0]@)) + row_lines(rest, fewer));
    }
}

/// The heading is read back as the names of the columns.
pub proof fn law_heading_reads_back(names: Seq<Seq<char>>, tail: Seq<char>)
    requires
        names.len() > 0,
    ensures
        read_record(header_line(names) + tail, CsvMode::Start, Seq::empty(), Seq::empty()) == Some(
            (names, tail),
        ),
{
    law_csv_line_reads_back(names, tail);
}

} // verus!
