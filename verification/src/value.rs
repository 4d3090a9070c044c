//! Showing one value of a table as a bounded text.

use crate::schema::TimeUnit;
use crate::text::{
    byte_len, cat, cat3, cat5, chars_of, chars_within, decimal, decimal_text,
    law_parse_inverts_decimal, law_signed_decimal_reads_back, lemma_byte_len_concat,
    lemma_chars_within, parsed_unsigned, prefix_within, signed_decimal, signed_decimal_text,
    text_of, utf8_len,
};
use vstd::prelude::*;
use vstd::string::StringExecFns;

verus! {

/// How many bytes a shown value has, if nothing else is asked for.
pub const DEFAULT_CELL_LIMIT: usize = 1024;

/// How deep values inside values are shown.
pub const MAX_NESTED_DEPTH: usize = 8;

/// How many values inside a value are shown.
pub const MAX_NESTED_ITEMS: usize = 16;

/// One value of a table.
#[derive(Debug)]
pub enum CellValue {
    Null,
    Boolean(bool),
    Signed(i64),
    Unsigned(u64),
    /// A value that is given by its text: a floating-point number, or the name of
    /// a type whose values are not shown.
    Written(String),
    Text(String),
    Binary(Vec<u8>),
    Date32(i32),
    Date64(i64),
    Timestamp { unit: TimeUnit, value: i64, timezone: Option<String> },
    List(Vec<CellValue>),
    Struct(Vec<(String, CellValue)>),
    Mapping(Vec<(CellValue, CellValue)>),
    /// A map without keys or without values.
    InvalidMap,
    /// A value that is not of the type of its column.
    Mismatch,
}

/// `s` where it has at most `limit` bytes, else what fits in them, and an
/// ellipsis.
pub open spec fn truncated(s: Seq<char>, limit: nat) -> Seq<char> {
    if byte_len(s) <= limit {
        s
    } else {
        s.take(chars_within(s, limit) as int) + "..."@
    }
}

/// `s` where it has at most `limit` bytes, else a part of it, with an ellipsis
/// where there is room, which has at most `limit` bytes together.
pub open spec fn truncated_exactly(s: Seq<char>, limit: nat) -> Seq<char> {
    if byte_len(s) <= limit {
        s
    } else if limit == 0 {
        Seq::empty()
    } else if limit <= 3 {
        s.take(chars_within(s, (limit - 1) as nat) as int)
    } else {
        s.take(chars_within(s, (limit - 3) as nat) as int) + "..."@
    }
}

/// `out` with `value` behind it, or with as much of it as fits in `limit` bytes;
/// and whether all of it does.
pub open spec fn appended(out: Seq<char>, value: Seq<char>, limit: nat) -> (Seq<char>, bool) {
    if byte_len(out) >= limit {
        (out, false)
    } else {
        let room = (limit - byte_len(out)) as nat;
        (out + truncated_exactly(value, room), byte_len(value) <= room)
    }
}

/// `out` cut so that an ellipsis behind it fits in `limit` bytes, and that
/// ellipsis; nothing where not even the ellipsis fits.
pub open spec fn with_ellipsis(out: Seq<char>, limit: nat) -> Seq<char> {
    if limit < 3 {
        Seq::empty()
    } else {
        out.take(chars_within(out, (limit - 3) as nat) as int) + "..."@
    }
}

/// `open` and the first `count` items, with commas between them, as far as they
/// fit in `limit` bytes; and whether they do.
pub open spec fn items_written(
    open: Seq<char>,
    items: Seq<Seq<char>>,
    limit: nat,
    count: nat,
) -> (Seq<char>, bool)
    decreases count,
{
    if count == 0 {
        (open, true)
    } else {
        let (before, complete) = items_written(open, items, limit, (count - 1) as nat);
        if !complete {
            (before, false)
        } else {
            let (separated, fits) = if count > 1 {
                appended(before, ", "@, limit)
            } else {
                (before, true)
            };
            if !fits {
                (separated, false)
            } else {
                appended(separated, items[count - 1], limit)
            }
        }
    }
}

/// The items between `open` and `close`, in at most `limit` bytes. `total` is the
/// number of items that there are, of which `items` are shown.
pub open spec fn collection_text(
    open: Seq<char>,
    close: Seq<char>,
    items: Seq<Seq<char>>,
    total: nat,
    limit: nat,
) -> Seq<char> {
    if limit == 0 {
        Seq::empty()
    } else {
        let content = if limit >= byte_len(close) {
            (limit - byte_len(close)) as nat
        } else {
            0
        };
        let (written, complete) = items_written(open, items, content, items.len());
        let body = if items.len() < total || !complete {
            with_ellipsis(written, content)
        } else {
            written
        };
        appended(body, close, limit).0
    }
}

/// A hexadecimal digit.
pub open spec fn hex_digit(n: int) -> char {
    if n == 0 {
        '0'
    } else if n == 1 {
        '1'
    } else if n == 2 {
        '2'
    } else if n == 3 {
        '3'
    } else if n == 4 {
        '4'
    } else if n == 5 {
        '5'
    } else if n == 6 {
        '6'
    } else if n == 7 {
        '7'
    } else if n == 8 {
        '8'
    } else if n == 9 {
        '9'
    } else if n == 10 {
        'a'
    } else if n == 11 {
        'b'
    } else if n == 12 {
        'c'
    } else if n == 13 {
        'd'
    } else if n == 14 {
        'e'
    } else {
        'f'
    }
}

/// The bytes, each as two hexadecimal digits.
pub open spec fn hex_text(bytes: Seq<u8>) -> Seq<char>
    decreases bytes.len(),
{
    if bytes.len() == 0 {
        Seq::empty()
    } else {
        hex_text(bytes.drop_last()).push(hex_digit(bytes.last() as int / 16)).push(
            hex_digit(bytes.last() as int % 16),
        )
    }
}

/// As many of the bytes as fit in `limit` hexadecimal digits, and an ellipsis
/// where that is not all of them.
pub open spec fn binary_text(bytes: Seq<u8>, limit: nat) -> Seq<char> {
    if bytes.len() <= limit / 2 {
        hex_text(bytes)
    } else {
        hex_text(bytes.take((limit / 2) as int)) + "..."@
    }
}

/// The short name of a unit of time.
pub open spec fn unit_label(unit: TimeUnit) -> Seq<char> {
    match unit {
        TimeUnit::Second => "s"@,
        TimeUnit::Millisecond => "ms"@,
        TimeUnit::Microsecond => "us"@,
        TimeUnit::Nanosecond => "ns"@,
    }
}

/// How many of `total` items are shown.
pub open spec fn items_shown(total: nat) -> nat {
    if total <= MAX_NESTED_ITEMS {
        total
    } else {
        MAX_NESTED_ITEMS as nat
    }
}

/// The text of a value that stands `depth` levels inside another one.
pub open spec fn value_text(value: CellValue, limit: nat, depth: nat) -> Seq<char>
    decreases MAX_NESTED_DEPTH - depth, 1int,
{
    if value is Null {
        "null"@
    } else if depth >= MAX_NESTED_DEPTH {
        "<nested...>"@
    } else {
        match value {
            CellValue::Null => "null"@,
            CellValue::Boolean(flag) => truncated(
                if flag {
                    "true"@
                } else {
                    "false"@
                },
                limit,
            ),
            CellValue::Signed(n) => truncated(signed_decimal(n as int), limit),
            CellValue::Unsigned(n) => truncated(decimal(n as nat), limit),
            CellValue::Written(text) => truncated(text@, limit),
            CellValue::Text(text) => truncated(truncated(text@, limit), limit),
            CellValue::Binary(bytes) => truncated(binary_text(bytes@, limit), limit),
            CellValue::Date32(days) => truncated(
                "date32:"@ + signed_decimal(days as int),
                limit,
            ),
            CellValue::Date64(ms) => truncated("date64_ms:"@ + signed_decimal(ms as int), limit),
            CellValue::Timestamp { unit, value, timezone } => truncated(
                "timestamp_"@ + unit_label(unit) + ":"@ + signed_decimal(value as int) + " "@ + match timezone {
                    Some(zone) => zone@,
                    None => "UTC"@,
                },
                limit,
            ),
            CellValue::List(items) => truncated(
                collection_text(
                    "["@,
                    "]"@,
                    list_texts(items@, limit, depth),
                    items@.len(),
                    limit,
                ),
                limit,
            ),
            CellValue::Struct(fields) => truncated(
                collection_text(
                    "{"@,
                    "}"@,
                    struct_texts(fields@, limit, depth),
                    fields@.len(),
                    limit,
                ),
                limit,
            ),
            CellValue::Mapping(entries) => truncated(
                collection_text(
                    "{"@,
                    "}"@,
                    map_texts(entries@, limit, depth),
                    entries@.len(),
                    limit,
                ),
                limit,
            ),
            CellValue::InvalidMap => truncated("<invalid map>"@, limit),
            CellValue::Mismatch => "<type mismatch>"@,
        }
    }
}

/// The texts of the items that are shown of a list at this depth.
pub open spec fn list_texts(items: Seq<CellValue>, limit: nat, depth: nat) -> Seq<Seq<char>>
    decreases MAX_NESTED_DEPTH - depth, 0int,
{
    if depth >= MAX_NESTED_DEPTH {
        Seq::empty()
    } else {
        Seq::new(items_shown(items.len()), |i: int| value_text(items[i], limit, depth + 1))
    }
}

/// The names and the texts of the fields that are shown of a struct at this
/// depth.
pub open spec fn struct_texts(
    fields: Seq<(String, CellValue)>,
    limit: nat,
    depth: nat,
) -> Seq<Seq<char>>
    decreases MAX_NESTED_DEPTH - depth, 0int,
{
    if depth >= MAX_NESTED_DEPTH {
        Seq::empty()
    } else {
        Seq::new(
            items_shown(fields.len()),
            |i: int| fields[i].0@ + ": "@ + value_text(fields[i].1, limit, depth + 1),
        )
    }
}

/// The texts of the keys and values that are shown of a map at this depth.
pub open spec fn map_texts(
    entries: Seq<(CellValue, CellValue)>,
    limit: nat,
    depth: nat,
) -> Seq<Seq<char>>
    decreases MAX_NESTED_DEPTH - depth, 0int,
{
    if depth >= MAX_NESTED_DEPTH {
        Seq::empty()
    } else {
        Seq::new(
            items_shown(entries.len()),
            |i: int|
                value_text(entries[i].0, limit, depth + 1) + ": "@ + value_text(
                    entries[i].1,
                    limit,
                    depth + 1,
                ),
        )
    }
}

/// The leading characters of `text` that fit in `limit` bytes.
fn fitting(text: &str, limit: usize) -> (part: String)
    ensures
        part@ == text@.take(chars_within(text@, limit as nat) as int),
{
    let chars = chars_of(text);
    let count: usize = prefix_within(&chars, limit);
    let part = text_of(&chars, 0, count);
    assert(part@ =~= text@.take(count as int));
    part
}

/// `value` where it has at most `limit` bytes, else what fits in them, and an
/// ellipsis.
pub fn truncate(value: &str, limit: usize) -> (text: String)
    ensures
        text@ == truncated(value@, limit as nat),
{
    if utf8_len(value) <= limit {
        return value.to_owned();
    }
    cat(fitting(value, limit).as_str(), "...")
}

/// `value` where it has at most `limit` bytes, else a part of it that fits in
/// them with its ellipsis.
pub fn truncate_exact(value: &str, limit: usize) -> (text: String)
    ensures
        text@ == truncated_exactly(value@, limit as nat),
{
    if utf8_len(value) <= limit {
        return value.to_owned();
    }
    if limit == 0 {
        return String::new();
    }
    if limit <= 3 {
        return fitting(value, limit - 1);
    }
    cat(fitting(value, limit - 3).as_str(), "...")
}

fn append_bounded(output: &mut String, value: &str, limit: usize) -> (complete: bool)
    ensures
        (final(output)@, complete) == appended(old(output)@, value@, limit as nat),
{
    let held: usize = utf8_len(output.as_str());
    if held >= limit {
        return false;
    }
    let room: usize = limit - held;
    let part = truncate_exact(value, room);
    output.append(part.as_str());
    utf8_len(value) <= room
}

fn append_ellipsis(output: &mut String, limit: usize)
    ensures
        final(output)@ == with_ellipsis(old(output)@, limit as nat),
{
    if limit < 3 {
        *output = String::new();
        assert(output@ =~= Seq::<char>::empty());
    } else {
        *output = cat(fitting(output.as_str(), limit - 3).as_str(), "...");
    }
}

/// What the items say.
pub open spec fn item_texts(items: Seq<String>) -> Seq<Seq<char>> {
    items.map_values(|item: String| item@)
}

fn format_collection(
    open: &str,
    close: &str,
    items: &Vec<String>,
    total: usize,
    limit: usize,
) -> (text: String)
    ensures
        text@ == collection_text(open@, close@, item_texts(items@), total as nat, limit as nat),
{
    if limit == 0 {
        let text = String::new();
        assert(text@ =~= Seq::<char>::empty());
        return text;
    }
    let ghost texts = item_texts(items@);
    let mut output = open.to_owned();
    let closing: usize = utf8_len(close);
    let content: usize = if limit >= closing {
        limit - closing
    } else {
        0
    };
    let mut complete: bool = true;
    let mut i: usize = 0;
    while i < items.len() && complete
        invariant
            i <= items@.len(),
            texts == item_texts(items@),
            complete ==> items_written(open@, texts, content as nat, i as nat) == (output@, true),
            !complete ==> items_written(open@, texts, content as nat, items@.len()) == (
                output@,
                false,
            ),
        decreases items@.len() - i, complete as int,
    {
        let ghost before = output@;
        assert(texts[i as int] == items@[i as int]@);
        if i > 0 {
            complete = append_bounded(&mut output, ", ", content);
        }
        if complete {
            complete = append_bounded(&mut output, items[i].as_str(), content);
        }
        proof {
            assert(items_written(open@, texts, content as nat, (i + 1) as nat) == (
                output@,
                complete,
            ));
            if !complete {
                lemma_items_stop(open@, texts, content as nat, (i + 1) as nat, items@.len());
            }
        }
        if complete {
            i = i + 1;
        }
    }
    if items.len() < total || !complete {
        append_ellipsis(&mut output, content);
    }
    append_bounded(&mut output, close, limit);
    output
}

proof fn lemma_items_stop(
    open: Seq<char>,
    items: Seq<Seq<char>>,
    limit: nat,
    count: nat,
    later: nat,
)
    requires
        count <= later,
        !items_written(open, items, limit, count).1,
    ensures
        items_written(open, items, limit, later) == items_written(open, items, limit, count),
    decreases later - count,
{
    if count < later {
        lemma_items_stop(open, items, limit, count, (later - 1) as nat);
    }
}

fn hex_char(n: u8) -> (c: char)
    requires
        n < 16,
    ensures
        c == hex_digit(n as int),
{
    match n {
        0 => '0',
        1 => '1',
        2 => '2',
        3 => '3',
        4 => '4',
        5 => '5',
        6 => '6',
        7 => '7',
        8 => '8',
        9 => '9',
        10 => 'a',
        11 => 'b',
        12 => 'c',
        13 => 'd',
        14 => 'e',
        _ => 'f',
    }
}

/// The first `count` bytes, each as two hexadecimal digits.
pub fn hex(bytes: &Vec<u8>, count: usize) -> (text: String)
    requires
        count <= bytes@.len(),
    ensures
        text@ == hex_text(bytes@.take(count as int)),
{
    let mut text = String::new();
    let mut i: usize = 0;
    assert(text@ =~= hex_text(bytes@.take(0)));
    while i < count
        invariant
            i <= count <= bytes@.len(),
            text@ == hex_text(bytes@.take(i as int)),
        decreases count - i,
    {
        let byte: u8 = bytes[i];
        text.push(hex_char(byte / 16));
        text.push(hex_char(byte % 16));
        proof {
            assert(bytes@.take(i + 1).drop_last() =~= bytes@.take(i as int));
        }
        i = i + 1;
    }
    text
}

/// As many of the bytes as fit in `limit` hexadecimal digits.
pub fn format_binary(value: &Vec<u8>, limit: usize) -> (text: String)
    ensures
        text@ == binary_text(value@, limit as nat),
{
    if value.len() <= limit / 2 {
        let text = hex(value, value.len());
        assert(value@.take(value@.len() as int) =~= value@);
        text
    } else {
        cat(hex(value, limit / 2).as_str(), "...")
    }
}

fn unit_text(unit: TimeUnit) -> (text: &'static str)
    ensures
        text@ == unit_label(unit),
{
    match unit {
        TimeUnit::Second => "s",
        TimeUnit::Millisecond => "ms",
        TimeUnit::Microsecond => "us",
        TimeUnit::Nanosecond => "ns",
    }
}

fn shown(total: usize) -> (count: usize)
    ensures
        count == items_shown(total as nat),
        count <= total,
{
    if total <= MAX_NESTED_ITEMS {
        total
    } else {
        MAX_NESTED_ITEMS
    }
}

fn format_sequence(items: &Vec<CellValue>, limit: usize, depth: usize) -> (text: String)
    requires
        depth < MAX_NESTED_DEPTH,
    ensures
        text@ == collection_text(
            "["@,
            "]"@,
            list_texts(items@, limit as nat, depth as nat),
            items@.len(),
            limit as nat,
        ),
    decreases MAX_NESTED_DEPTH - depth, 0int,
{
    let count: usize = shown(items.len());
    let mut texts: Vec<String> = Vec::new();
    let mut i: usize = 0;
    while i < count
        invariant
            i <= count <= items@.len(),
            depth < MAX_NESTED_DEPTH,
            texts@.len() == i,
            forall|k: int|
                0 <= k < i ==> (#[trigger] texts@[k])@ == value_text(
                    items@[k],
                    limit as nat,
                    (depth + 1) as nat,
                ),
        decreases count - i,
    {
        texts.push(format_value(&items[i], limit, depth + 1));
        i = i + 1;
    }
    assert(item_texts(texts@) =~= list_texts(items@, limit as nat, depth as nat));
    format_collection("[", "]", &texts, items.len(), limit)
}

fn format_struct(fields: &Vec<(String, CellValue)>, limit: usize, depth: usize) -> (text: String)
    requires
        depth < MAX_NESTED_DEPTH,
    ensures
        text@ == collection_text(
            "{"@,
            "}"@,
            struct_texts(fields@, limit as nat, depth as nat),
            fields@.len(),
            limit as nat,
        ),
    decreases MAX_NESTED_DEPTH - depth, 0int,
{
    let count: usize = shown(fields.len());
    let mut texts: Vec<String> = Vec::new();
    let mut i: usize = 0;
    while i < count
        invariant
            i <= count <= fields@.len(),
            depth < MAX_NESTED_DEPTH,
            texts@.len() == i,
            forall|k: int|
                0 <= k < i ==> (#[trigger] texts@[k])@ == fields@[k].0@ + ": "@ + value_text(
                    fields@[k].1,
                    limit as nat,
                    (depth + 1) as nat,
                ),
        decreases count - i,
    {
        let value = format_value(&fields[i].1, limit, depth + 1);
        texts.push(cat3(fields[i].0.as_str(), ": ", value.as_str()));
        i = i + 1;
    }
    assert(item_texts(texts@) =~= struct_texts(fields@, limit as nat, depth as nat));
    format_collection("{", "}", &texts, fields.len(), limit)
}

fn format_map(entries: &Vec<(CellValue, CellValue)>, limit: usize, depth: usize) -> (text: String)
    requires
        depth < MAX_NESTED_DEPTH,
    ensures
        text@ == collection_text(
            "{"@,
            "}"@,
            map_texts(entries@, limit as nat, depth as nat),
            entries@.len(),
            limit as nat,
        ),
    decreases MAX_NESTED_DEPTH - depth, 0int,
{
    let count: usize = shown(entries.len());
    let mut texts: Vec<String> = Vec::new();
    let mut i: usize = 0;
    while i < count
        invariant
            i <= count <= entries@.len(),
            depth < MAX_NESTED_DEPTH,
            texts@.len() == i,
            forall|k: int|
                0 <= k < i ==> (#[trigger] texts@[k])@ == value_text(
                    entries@[k].0,
                    limit as nat,
                    (depth + 1) as nat,
                ) + ": "@ + value_text(entries@[k].1, limit as nat, (depth + 1) as nat),
        decreases count - i,
    {
        let key = format_value(&entries[i].0, limit, depth + 1);
        let value = format_value(&entries[i].1, limit, depth + 1);
        texts.push(cat3(key.as_str(), ": ", value.as_str()));
        i = i + 1;
    }
    assert(item_texts(texts@) =~= map_texts(entries@, limit as nat, depth as nat));
    format_collection("{", "}", &texts, entries.len(), limit)
}

fn format_timestamp(unit: TimeUnit, value: i64, timezone: &Option<String>) -> (text: String)
    ensures
        text@ == "timestamp_"@ + unit_label(unit) + ":"@ + signed_decimal(value as int) + " "@
            + match *timezone {
            Some(zone) => zone@,
            None => "UTC"@,
        },
{
    let number = signed_decimal_text(value);
    let head = cat5("timestamp_", unit_text(unit), ":", number.as_str(), " ");
    match timezone {
        Some(zone) => cat(head.as_str(), zone.as_str()),
        None => cat(head.as_str(), "UTC"),
    }
}

fn format_value(value: &CellValue, limit: usize, depth: usize) -> (text: String)
    ensures
        text@ == value_text(*value, limit as nat, depth as nat),
    decreases MAX_NESTED_DEPTH - depth, 1int,
{
    if let CellValue::Null = value {
        return "null".to_owned();
    }
    if depth >= MAX_NESTED_DEPTH {
        return "<nested...>".to_owned();
    }
    let full = match value {
        CellValue::Null => return "null".to_owned(),
        CellValue::Boolean(flag) => if *flag {
            "true".to_owned()
        } else {
            "false".to_owned()
        },
        CellValue::Signed(n) => signed_decimal_text(*n),
        CellValue::Unsigned(n) => decimal_text(*n),
        CellValue::Written(text) => text.as_str().to_owned(),
        CellValue::Text(text) => truncate(text.as_str(), limit),
        CellValue::Binary(bytes) => format_binary(bytes, limit),
        CellValue::Date32(days) => cat("date32:", signed_decimal_text(*days as i64).as_str()),
        CellValue::Date64(ms) => cat("date64_ms:", signed_decimal_text(*ms).as_str()),
        CellValue::Timestamp { unit, value, timezone } => format_timestamp(*unit, *value, timezone),
        CellValue::List(items) => format_sequence(items, limit, depth),
        CellValue::Struct(fields) => format_struct(fields, limit, depth),
        CellValue::Mapping(entries) => format_map(entries, limit, depth),
        CellValue::InvalidMap => "<invalid map>".to_owned(),
        CellValue::Mismatch => return "<type mismatch>".to_owned(),
    };
    truncate(full.as_str(), limit)
}

/// The text of a value in `limit` bytes, not counting an ellipsis.
pub fn format_cell_with_limit(value: &CellValue, limit: usize) -> (text: String)
    ensures
        text@ == value_text(*value, limit as nat, 0),
{
    format_value(value, limit, 0)
}

/// The text of a value in [`DEFAULT_CELL_LIMIT`] bytes, not counting an ellipsis.
pub fn format_cell(value: &CellValue) -> (text: String)
    ensures
        text@ == value_text(*value, DEFAULT_CELL_LIMIT as nat, 0),
{
    format_cell_with_limit(value, DEFAULT_CELL_LIMIT)
}

// ---------------------------------------------------------------------------
// Bounds
// ---------------------------------------------------------------------------

proof fn lemma_ellipsis_len()
    ensures
        byte_len("..."@) == 3,
{
    reveal_strlit("...");
    assert("..."@ =~= seq!['.', '.', '.']);
    assert(seq!['.', '.', '.'].drop_last() =~= seq!['.', '.']);
    assert(seq!['.', '.'].drop_last() =~= seq!['.']);
    assert(seq!['.'].drop_last() =~= Seq::<char>::empty());
    reveal_with_fuel(byte_len, 4);
}

proof fn lemma_truncated_exactly_len(s: Seq<char>, limit: nat)
    ensures
        byte_len(truncated_exactly(s, limit)) <= limit,
{
    lemma_ellipsis_len();
    if byte_len(s) > limit {
        if 0 < limit <= 3 {
            lemma_chars_within(s, (limit - 1) as nat);
        } else if limit > 3 {
            lemma_chars_within(s, (limit - 3) as nat);
            lemma_byte_len_concat(s.take(chars_within(s, (limit - 3) as nat) as int), "..."@);
        }
    }
}

proof fn lemma_appended_len(out: Seq<char>, value: Seq<char>, limit: nat)
    ensures
        byte_len(out) <= limit ==> byte_len(appended(out, value, limit).0) <= limit,
        byte_len(out) > limit ==> appended(out, value, limit).0 == out,
{
    if byte_len(out) < limit {
        let room = (limit - byte_len(out)) as nat;
        lemma_truncated_exactly_len(value, room);
        lemma_byte_len_concat(out, truncated_exactly(value, room));
    }
}

proof fn lemma_items_written_len(
    open: Seq<char>,
    items: Seq<Seq<char>>,
    limit: nat,
    count: nat,
)
    ensures
        byte_len(open) <= limit ==> byte_len(items_written(open, items, limit, count).0) <= limit,
        byte_len(open) > limit ==> items_written(open, items, limit, count).0 == open,
    decreases count,
{
    if count > 0 {
        lemma_items_written_len(open, items, limit, (count - 1) as nat);
        let before = items_written(open, items, limit, (count - 1) as nat).0;
        lemma_appended_len(before, ", "@, limit);
        let separated = if count > 1 {
            appended(before, ", "@, limit).0
        } else {
            before
        };
        lemma_appended_len(separated, items[count - 1], limit);
    }
}

/// A shown value has no more bytes than asked for, not counting an ellipsis of
/// three.
pub proof fn law_truncated_text_is_bounded(s: Seq<char>, limit: nat)
    ensures
        byte_len(truncated(s, limit)) <= limit + 3,
        byte_len(s) <= limit ==> truncated(s, limit) == s,
{
    lemma_ellipsis_len();
    if byte_len(s) > limit {
        lemma_chars_within(s, limit);
        lemma_byte_len_concat(s.take(chars_within(s, limit) as int), "..."@);
    }
}

/// A shown list, struct or map has no more bytes than asked for, its brackets and
/// its ellipsis counted.
pub proof fn law_nested_text_fits(
    open: Seq<char>,
    close: Seq<char>,
    items: Seq<Seq<char>>,
    total: nat,
    limit: nat,
)
    requires
        byte_len(open) == 1,
        byte_len(close) == 1,
    ensures
        byte_len(collection_text(open, close, items, total, limit)) <= limit,
        truncated(collection_text(open, close, items, total, limit), limit) == collection_text(
            open,
            close,
            items,
            total,
            limit,
        ),
{
    if limit > 0 {
        lemma_ellipsis_len();
        let content = (limit - 1) as nat;
        let (written, complete) = items_written(open, items, content, items.len());
        lemma_items_written_len(open, items, content, items.len());
        if content >= 3 {
            lemma_chars_within(written, (content - 3) as nat);
            lemma_byte_len_concat(
                written.take(chars_within(written, (content - 3) as nat) as int),
                "..."@,
            );
        }
        let body = if items.len() < total || !complete {
            with_ellipsis(written, content)
        } else {
            written
        };
        lemma_appended_len(body, close, limit);
    }
}

/// Two hexadecimal digits tell every byte from every other one.
pub proof fn law_hex_digits_tell_bytes_apart(a: Seq<u8>, b: Seq<u8>)
    ensures
        hex_text(a).len() == 2 * a.len(),
        hex_text(a) == hex_text(b) <==> a == b,
    decreases a.len(),
{
    lemma_hex_len(a);
    lemma_hex_len(b);
    if hex_text(a) == hex_text(b) {
        if a.len() == 0 {
            assert(a =~= b);
        } else {
            let (x, y) = (a.last() as int, b.last() as int);
            let (s, t) = (hex_text(a.drop_last()), hex_text(b.drop_last()));
            let whole = hex_text(a);
            assert(whole == s.push(hex_digit(x / 16)).push(hex_digit(x % 16)));
            assert(whole == t.push(hex_digit(y / 16)).push(hex_digit(y % 16)));
            assert(whole[whole.len() - 1] == hex_digit(x % 16));
            assert(whole[whole.len() - 1] == hex_digit(y % 16));
            assert(whole[whole.len() - 2] == hex_digit(x / 16));
            assert(whole[whole.len() - 2] == hex_digit(y / 16));
            lemma_hex_digit(x % 16, y % 16);
            lemma_hex_digit(x / 16, y / 16);
            assert(x == y);
            assert(s =~= whole.take(whole.len() - 2));
            assert(t =~= whole.take(whole.len() - 2));
            law_hex_digits_tell_bytes_apart(a.drop_last(), b.drop_last());
            assert(a =~= a.drop_last().push(a.last()));
            assert(b =~= b.drop_last().push(b.last()));
        }
    }
}

/// The digits up to nine are those of decimal numbers, and the others the letters that
/// follow `a`.
pub proof fn law_hex_digits_are_in_order(n: int)
    requires
        0 <= n < 16,
    ensures
        hex_digit(n) as int == if n < 10 {
            '0' as int + n
        } else {
            'a' as int + n - 10
        },
{
}

proof fn lemma_hex_len(bytes: Seq<u8>)
    ensures
        hex_text(bytes).len() == 2 * bytes.len(),
    decreases bytes.len(),
{
    if bytes.len() > 0 {
        lemma_hex_len(bytes.drop_last());
    }
}

proof fn lemma_hex_digit(m: int, n: int)
    requires
        0 <= m < 16,
        0 <= n < 16,
        hex_digit(m) == hex_digit(n),
    ensures
        m == n,
{
    law_hex_digits_are_in_order(m);
    law_hex_digits_are_in_order(n);
}

/// A text that is shown is what it is, or begins as it does and then says that there is
/// more; it is cut only where it has too many bytes, and then no character that still fits
/// is left out.
pub proof fn law_truncated_text_begins_alike(s: Seq<char>, limit: nat)
    ensures
        byte_len(s) <= limit ==> truncated(s, limit) == s,
        byte_len(s) > limit ==> exists|k: int|
            0 <= k < s.len() && truncated(s, limit) == #[trigger] s.take(k) + "..."@ && byte_len(
                s.take(k),
            ) <= limit < byte_len(s.take(k + 1)),
{
    if byte_len(s) > limit {
        let k = chars_within(s, limit) as int;
        lemma_chars_within(s, limit);
        if k == s.len() {
            assert(s.take(k) =~= s);
        }
        assert(truncated(s, limit) == s.take(k) + "..."@);
    }
}

/// Values are shown as they are where there is room for them: a number reads back, a text
/// is itself, and bytes are their hexadecimal digits.
pub proof fn law_values_are_shown_as_they_are(
    signed: i64,
    unsigned: u64,
    text: String,
    bytes: Vec<u8>,
    limit: nat,
    depth: nat,
)
    requires
        depth < MAX_NESTED_DEPTH,
    ensures
        byte_len(signed_decimal(signed as int)) <= limit ==> {
            let shown = value_text(CellValue::Signed(signed), limit, depth);
            &&& signed >= 0 ==> parsed_unsigned(shown, u64::MAX as nat) == Some(signed as nat)
            &&& signed < 0 ==> shown[0] == '-' && parsed_unsigned(
                shown.drop_first(),
                u64::MAX as nat,
            ) == Some((-signed) as nat)
        },
        byte_len(decimal(unsigned as nat)) <= limit ==> parsed_unsigned(
            value_text(CellValue::Unsigned(unsigned), limit, depth),
            u64::MAX as nat,
        ) == Some(unsigned as nat),
        byte_len(text@) <= limit ==> value_text(CellValue::Text(text), limit, depth) == text@,
        byte_len(text@) <= limit ==> value_text(CellValue::Written(text), limit, depth) == text@,
        2 * bytes@.len() <= limit ==> value_text(CellValue::Binary(bytes), limit, depth)
            == hex_text(bytes@),
        limit >= 5 ==> value_text(CellValue::Boolean(true), limit, depth) == seq![
            't',
            'r',
            'u',
            'e',
        ] && value_text(CellValue::Boolean(false), limit, depth) == seq!['f', 'a', 'l', 's', 'e'],
        value_text(CellValue::Null, limit, depth) == seq!['n', 'u', 'l', 'l'],
{
    law_signed_decimal_reads_back(signed as int, u64::MAX as nat);
    law_parse_inverts_decimal(unsigned as nat, u64::MAX as nat);
    lemma_hex_bytes(bytes@);
    reveal_strlit("true");
    reveal_strlit("false");
    reveal_strlit("null");
    assert("true"@ =~= seq!['t', 'r', 'u', 'e']);
    assert("false"@ =~= seq!['f', 'a', 'l', 's', 'e']);
    assert("null"@ =~= seq!['n', 'u', 'l', 'l']);
    lemma_plain_len("true"@);
    lemma_plain_len("false"@);
}

proof fn lemma_plain_len(s: Seq<char>)
    requires
        forall|i: int| 0 <= i < s.len() ==> (#[trigger] s[i]) as int <= 'z' as int,
    ensures
        byte_len(s) == s.len(),
    decreases s.len(),
{
    if s.len() > 0 {
        let init = s.drop_last();
        assert forall|i: int| 0 <= i < init.len() implies (#[trigger] init[i]) as int
            <= 'z' as int by {
            assert(init[i] == s[i]);
        }
        lemma_plain_len(init);
        assert(s[s.len() - 1] as int <= 'z' as int);
    }
}

proof fn lemma_hex_bytes(bytes: Seq<u8>)
    ensures
        byte_len(hex_text(bytes)) == 2 * bytes.len(),
{
    lemma_hex_len(bytes);
    lemma_hex_plain(bytes);
    lemma_plain_len(hex_text(bytes));
}

proof fn lemma_hex_plain(bytes: Seq<u8>)
    ensures
        forall|i: int|
            0 <= i < hex_text(bytes).len() ==> (#[trigger] hex_text(bytes)[i]) as int <= 'z' as int,
    decreases bytes.len(),
{
    if bytes.len() > 0 {
        let init = hex_text(bytes.drop_last());
        lemma_hex_plain(bytes.drop_last());
        let text = hex_text(bytes);
        assert forall|i: int| 0 <= i < text.len() implies (#[trigger] text[i]) as int
            <= 'z' as int by {
            if i < init.len() {
                assert(text[i] == init[i]);
            }
        }
    }
}

/// The items with a comma and a space between them.
pub open spec fn listed(items: Seq<Seq<char>>) -> Seq<char>
    decreases items.len(),
{
    if items.len() == 0 {
        Seq::empty()
    } else if items.len() == 1 {
        items[0]
    } else {
        listed(items.drop_last()) + ", "@ + items.last()
    }
}

/// A list, a struct or a map whose items fit is shown in full: all items, in their order,
/// with commas between them, inside its brackets. Only behind an item without any text there
/// has to be room for more.
pub proof fn law_collection_that_fits_is_shown_in_full(
    open: Seq<char>,
    close: Seq<char>,
    items: Seq<Seq<char>>,
    limit: nat,
)
    requires
        byte_len(open) > 0,
        byte_len(close) > 0,
        byte_len(open) + byte_len(listed(items)) + byte_len(close) <= limit,
        byte_len(open) + byte_len(listed(items)) + byte_len(close) < limit || items.len() == 0
            || byte_len(items.last()) > 0,
    ensures
        collection_text(open, close, items, items.len(), limit) == open + listed(items) + close,
{
    let content = (limit - byte_len(close)) as nat;
    lemma_items_all_written(open, items, content, items.len());
    assert(items.take(items.len() as int) =~= items);
    let written = open + listed(items);
    lemma_byte_len_concat(open, listed(items));
    assert(items_written(open, items, content, items.len()) == (written, true));
}

proof fn lemma_items_all_written(
    open: Seq<char>,
    items: Seq<Seq<char>>,
    limit: nat,
    count: nat,
)
    requires
        count <= items.len(),
        byte_len(open) + byte_len(listed(items.take(count as int))) <= limit,
        byte_len(open) + byte_len(listed(items.take(count as int))) < limit || count == 0
            || byte_len(items[count - 1]) > 0,
    ensures
        items_written(open, items, limit, count) == (open + listed(items.take(count as int)), true),
    decreases count,
{
    let some = items.take(count as int);
    if count == 0 {
        assert(open + listed(some) =~= open);
    } else {
        let fewer = items.take(count - 1);
        assert(some.drop_last() =~= fewer);
        let before = open + listed(fewer);
        lemma_byte_len_concat(open, listed(fewer));
        if count == 1 {
            assert(fewer =~= Seq::<Seq<char>>::empty());
            assert(before =~= open);
            assert(listed(some) == items[0]);
            lemma_items_all_written(open, items, limit, 0);
            lemma_appends(open, items[0], limit);
        } else {
            reveal_strlit(", ");
            lemma_plain_len(", "@);
            lemma_byte_len_concat(listed(fewer) + ", "@, items[count - 1]);
            lemma_byte_len_concat(listed(fewer), ", "@);
            lemma_items_all_written(open, items, limit, (count - 1) as nat);
            lemma_appends(before, ", "@, limit);
            lemma_byte_len_concat(before, ", "@);
            lemma_appends(before + ", "@, items[count - 1], limit);
            assert(before + ", "@ + items[count - 1] =~= open + listed(some));
        }
    }
}

proof fn lemma_appends(out: Seq<char>, value: Seq<char>, limit: nat)
    requires
        byte_len(out) + byte_len(value) <= limit,
        byte_len(out) + byte_len(value) < limit || byte_len(value) > 0,
    ensures
        appended(out, value, limit) == (out + value, true),
{
}

/// The units of time are told apart where points in time are shown.
pub proof fn law_time_units_are_told_apart(a: TimeUnit, b: TimeUnit)
    ensures
        unit_label(a) == unit_label(b) <==> a == b,
        unit_label(TimeUnit::Second) == seq!['s'],
        unit_label(TimeUnit::Millisecond) == seq!['m', 's'],
        unit_label(TimeUnit::Microsecond) == seq!['u', 's'],
        unit_label(TimeUnit::Nanosecond) == seq!['n', 's'],
{
    reveal_strlit("s");
    reveal_strlit("ms");
    reveal_strlit("us");
    reveal_strlit("ns");
    assert("s"@ =~= seq!['s']);
    assert("ms"@ =~= seq!['m', 's']);
    assert("us"@ =~= seq!['u', 's']);
    assert("ns"@ =~= seq!['n', 's']);
    assert(seq!['m', 's'][0] != seq!['u', 's'][0]);
    assert(seq!['m', 's'][0] != seq!['n', 's'][0]);
    assert(seq!['u', 's'][0] != seq!['n', 's'][0]);
}

/// What is shown of the parts of a value are the parts, in their order, up to as many as may
/// be shown: the items of a list, the fields of a struct behind their names, and the values
/// of a map behind their keys.
pub proof fn law_parts_are_shown_in_order(
    items: Seq<CellValue>,
    fields: Seq<(String, CellValue)>,
    entries: Seq<(CellValue, CellValue)>,
    limit: nat,
    depth: nat,
    i: int,
)
    requires
        depth < MAX_NESTED_DEPTH,
        0 <= i < MAX_NESTED_ITEMS,
    ensures
        i < items.len() ==> i < list_texts(items, limit, depth).len() && list_texts(
            items,
            limit,
            depth,
        )[i] == value_text(items[i], limit, depth + 1),
        i < fields.len() ==> i < struct_texts(fields, limit, depth).len() && struct_texts(
            fields,
            limit,
            depth,
        )[i] == fields[i].0@ + seq![':', ' '] + value_text(fields[i].1, limit, depth + 1),
        i < entries.len() ==> i < map_texts(entries, limit, depth).len() && map_texts(
            entries,
            limit,
            depth,
        )[i] == value_text(entries[i].0, limit, depth + 1) + seq![':', ' '] + value_text(
            entries[i].1,
            limit,
            depth + 1,
        ),
        list_texts(items, limit, depth).len() <= items.len(),
        list_texts(items, limit, depth).len() <= MAX_NESTED_ITEMS,
{
    reveal_strlit(": ");
    assert(": "@ =~= seq![':', ' ']);
}

/// A part that is shown in what room is left fits in it: it is itself where it can be, and
/// else begins alike and, where there is room for that, says that there is more; no character
/// that still fits is left out.
pub proof fn law_part_is_cut_to_its_room(s: Seq<char>, limit: nat)
    ensures
        byte_len(truncated_exactly(s, limit)) <= limit,
        byte_len(s) <= limit ==> truncated_exactly(s, limit) == s,
        byte_len(s) > limit > 3 ==> exists|k: int|
            0 <= k < s.len() && truncated_exactly(s, limit) == #[trigger] s.take(k) + "..."@
                && byte_len(s.take(k)) <= limit - 3 < byte_len(s.take(k + 1)),
        byte_len(s) > limit && 0 < limit <= 3 ==> exists|k: int|
            0 <= k < s.len() && truncated_exactly(s, limit) == #[trigger] s.take(k) && byte_len(
                s.take(k),
            ) <= limit - 1 < byte_len(s.take(k + 1)),
{
    lemma_ellipsis_len();
    if byte_len(s) > limit {
        if limit == 0 {
            assert(truncated_exactly(s, limit) =~= Seq::<char>::empty());
        } else {
            let room = if limit <= 3 {
                (limit - 1) as nat
            } else {
                (limit - 3) as nat
            };
            let k = chars_within(s, room) as int;
            lemma_chars_within(s, room);
            if k == s.len() {
                assert(s.take(k) =~= s);
            }
            lemma_byte_len_concat(s.take(k), "..."@);
            assert(byte_len(s.take(k)) <= room < byte_len(s.take(k + 1)));
        }
    }
}

/// A list, a struct or a map of which not all items are shown says so: an ellipsis stands
/// before its closing bracket.
pub proof fn law_cut_collection_says_so(
    open: Seq<char>,
    close: Seq<char>,
    items: Seq<Seq<char>>,
    total: nat,
    limit: nat,
)
    requires
        close.len() == 1,
        byte_len(close) == 1,
        items.len() < total,
        limit >= 4,
    ensures
        ({
            let text = collection_text(open, close, items, total, limit);
            &&& text.len() >= 4
            &&& text.last() == close[0]
            &&& text.subrange(text.len() - 4, text.len() - 1) == seq!['.', '.', '.']
        }),
{
    lemma_ellipsis_len();
    reveal_strlit("...");
    assert("..."@ =~= seq!['.', '.', '.']);
    let content = (limit - 1) as nat;
    let written = items_written(open, items, content, items.len()).0;
    let k = chars_within(written, (content - 3) as nat) as int;
    lemma_chars_within(written, (content - 3) as nat);
    let body = written.take(k) + "..."@;
    lemma_byte_len_concat(written.take(k), "..."@);
    let text = collection_text(open, close, items, total, limit);
    assert(text == body + close);
    assert(text.subrange(text.len() - 4, text.len() - 1) =~= seq!['.', '.', '.']);
}

} // verus!
