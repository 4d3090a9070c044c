//! What the inspector says of a column, of a schema and of one cell.

use crate::metadata::{ColumnInfo, ColumnStatistics};
use crate::schema::{DataType, Field};
use crate::text::cat3;
use crate::value::{format_cell_with_limit, value_text, CellValue};
use vstd::prelude::*;
use vstd::string::StringExecFns;

verus! {

/// How many bytes of a value are shown.
pub const PREVIEW_LIMIT: usize = 256;

/// How many bytes of a nested value are shown once it is expanded.
pub const EXPANDED_NESTED_LIMIT: usize = 2048;

/// How deep a schema is shown.
pub const MAX_SCHEMA_DEPTH: usize = 8;

/// How many fields of a schema are shown.
pub const MAX_SCHEMA_FIELDS: usize = 64;

#[derive(Debug, PartialEq, Eq)]
pub struct ColumnSummary {
    pub index: usize,
    pub name: String,
    pub data_type: String,
    pub nullable: bool,
    pub available_statistics: usize,
    pub row_groups: usize,
    pub null_count: Option<u64>,
}

#[derive(Debug, PartialEq, Eq)]
pub struct CellDetails {
    pub row: u64,
    pub column: usize,
    pub name: String,
    pub data_type: String,
    pub is_null: bool,
    pub value: String,
    pub full_value: Option<String>,
    pub expanded_value: Option<String>,
}

// ---------------------------------------------------------------------------
// Columns
// ---------------------------------------------------------------------------

/// How many row groups have statistics.
pub open spec fn available_count(statistics: Seq<Option<ColumnStatistics>>) -> nat
    decreases statistics.len(),
{
    if statistics.len() == 0 {
        0
    } else {
        available_count(statistics.drop_last()) + if statistics.last() is Some {
            1nat
        } else {
            0nat
        }
    }
}

/// How many values are missing in all row groups together; unknown where one row
/// group does not say.
pub open spec fn known_nulls(statistics: Seq<Option<ColumnStatistics>>) -> Option<nat>
    decreases statistics.len(),
{
    if statistics.len() == 0 {
        Some(0)
    } else {
        match known_nulls(statistics.drop_last()) {
            None => None,
            Some(before) => match statistics.last() {
                None => None,
                Some(last) => match last.null_count {
                    None => None,
                    Some(count) => Some(before + count as nat),
                },
            },
        }
    }
}

proof fn lemma_known_nulls(statistics: Seq<Option<ColumnStatistics>>, k: int)
    requires
        0 <= k <= statistics.len(),
    ensures
        known_nulls(statistics.take(k)) is None ==> known_nulls(statistics) is None,
        known_nulls(statistics) is Some ==> known_nulls(statistics.take(k)) is Some && known_nulls(
            statistics.take(k),
        )->0 <= known_nulls(statistics)->0,
    decreases statistics.len() - k,
{
    if k == statistics.len() {
        assert(statistics.take(k) =~= statistics);
    } else {
        assert(statistics.take(k + 1).drop_last() =~= statistics.take(k));
        lemma_known_nulls(statistics, k + 1);
    }
}

/// How many values are missing in all row groups together; unknown where one row
/// group does not say, or where the number does not fit.
pub fn metadata_null_count(column: &ColumnInfo) -> (count: Option<u64>)
    ensures
        count == match known_nulls(column.row_group_statistics@) {
            Some(total) => if total <= u64::MAX {
                Some(total as u64)
            } else {
                None
            },
            None => None,
        },
{
    let statistics = &column.row_group_statistics;
    let mut total: u64 = 0;
    let mut i: usize = 0;
    assert(statistics@.take(0) =~= Seq::<Option<ColumnStatistics>>::empty());
    while i < statistics.len()
        invariant
            i <= statistics@.len(),
            statistics@ == column.row_group_statistics@,
            known_nulls(statistics@.take(i as int)) == Some(total as nat),
        decreases statistics@.len() - i,
    {
        proof {
            assert(statistics@.take(i + 1).drop_last() =~= statistics@.take(i as int));
            assert(statistics@.take(i + 1).last() == statistics@[i as int]);
            lemma_known_nulls(statistics@, i + 1);
        }
        let count: u64 = match &statistics[i] {
            None => return None,
            Some(known) => match known.null_count {
                None => return None,
                Some(count) => count,
            },
        };
        match total.checked_add(count) {
            Some(sum) => {
                total = sum;
            },
            None => return None,
        }
        i = i + 1;
    }
    assert(statistics@.take(i as int) =~= statistics@);
    Some(total)
}

fn count_available(statistics: &Vec<Option<ColumnStatistics>>) -> (count: usize)
    ensures
        count == available_count(statistics@),
{
    let mut count: usize = 0;
    let mut i: usize = 0;
    assert(statistics@.take(0) =~= Seq::<Option<ColumnStatistics>>::empty());
    while i < statistics.len()
        invariant
            i <= statistics.len(),
            count <= i,
            count == available_count(statistics@.take(i as int)),
        decreases statistics@.len() - i,
    {
        proof {
            assert(statistics@.take(i + 1).drop_last() =~= statistics@.take(i as int));
        }
        if statistics[i].is_some() {
            count = count + 1;
        }
        i = i + 1;
    }
    assert(statistics@.take(i as int) =~= statistics@);
    count
}

/// What is known of a column without reading it. `type_text` is the name of its
/// type.
pub fn column_summary(column: &ColumnInfo, type_text: &str) -> (summary: ColumnSummary)
    requires
        known_nulls(column.row_group_statistics@) matches Some(total) ==> total <= u64::MAX,
    ensures
        summary.index == column.index,
        summary.name@ == column.name@,
        summary.data_type@ == type_text@,
        summary.nullable == column.nullable,
        summary.available_statistics == available_count(column.row_group_statistics@),
        summary.row_groups == column.row_group_statistics@.len(),
        match known_nulls(column.row_group_statistics@) {
            Some(total) => summary.null_count == Some(total as u64),
            None => summary.null_count is None,
        },
{
    ColumnSummary {
        index: column.index,
        name: column.name.as_str().to_owned(),
        data_type: type_text.to_owned(),
        nullable: column.nullable,
        available_statistics: count_available(&column.row_group_statistics),
        row_groups: column.row_group_statistics.len(),
        null_count: metadata_null_count(column),
    }
}

// ---------------------------------------------------------------------------
// Schemas
// ---------------------------------------------------------------------------

/// Two spaces for each level.
pub open spec fn indent(depth: nat) -> Seq<char>
    decreases depth,
{
    if depth == 0 {
        Seq::empty()
    } else {
        indent((depth - 1) as nat) + "  "@
    }
}

/// The name of a type: short for nested ones, whose parts are listed.
pub open spec fn label_of_type(data_type: DataType, type_text: Seq<char>) -> Seq<char> {
    match data_type {
        DataType::Struct => "struct"@,
        DataType::List => "list"@,
        DataType::LargeList => "large list"@,
        DataType::Mapping => "map"@,
        _ => type_text,
    }
}

/// How many parts of a type are listed: all fields of a structure, the item of a
/// list, the entries of a map.
pub open spec fn parts_listed(data_type: DataType, children: nat) -> nat {
    match data_type {
        DataType::Struct => children,
        DataType::List | DataType::LargeList | DataType::Mapping => if children > 0 {
            1
        } else {
            0
        },
        _ => 0,
    }
}

/// The lines that describe a field, and how many fields were listed then, when
/// `seen` were listed before.
pub open spec fn field_lines(field: Field, depth: nat, seen: nat) -> (Seq<Seq<char>>, nat)
    decreases MAX_SCHEMA_DEPTH + 1 - depth, 0nat,
{
    if seen >= MAX_SCHEMA_FIELDS {
        (seq![indent(depth) + "..."@], seen)
    } else {
        let line = indent(depth) + field.name@ + ": "@ + label_of_type(
            field.data_type,
            field.type_text@,
        );
        if depth >= MAX_SCHEMA_DEPTH {
            (seq![line, indent(depth + 1) + "..."@], seen + 1)
        } else {
            let (rest, total) = children_lines(
                field.children@,
                parts_listed(field.data_type, field.children@.len()),
                depth + 1,
                seen + 1,
            );
            (seq![line] + rest, total)
        }
    }
}

/// The lines that describe the first `count` of some fields.
pub open spec fn children_lines(children: Seq<Field>, count: nat, depth: nat, seen: nat) -> (
    Seq<Seq<char>>,
    nat,
)
    decreases MAX_SCHEMA_DEPTH + 1 - depth, count + 1,
{
    if count == 0 || depth > MAX_SCHEMA_DEPTH {
        (Seq::empty(), seen)
    } else {
        let (before, listed) = children_lines(children, (count - 1) as nat, depth, seen);
        let (last, total) = field_lines(children[count - 1], depth, listed);
        (before + last, total)
    }
}

/// The lines with line breaks between them.
pub open spec fn joined_lines(lines: Seq<Seq<char>>) -> Seq<char>
    decreases lines.len(),
{
    if lines.len() == 0 {
        Seq::empty()
    } else if lines.len() == 1 {
        lines[0]
    } else {
        joined_lines(lines.drop_last()) + "\n"@ + lines.last()
    }
}

/// What the lines say.
pub open spec fn line_texts(lines: Seq<String>) -> Seq<Seq<char>> {
    lines.map_values(|line: String| line@)
}

fn indentation(depth: usize) -> (text: String)
    ensures
        text@ == indent(depth as nat),
{
    let mut text = String::new();
    let mut i: usize = 0;
    assert(text@ =~= indent(0));
    while i < depth
        invariant
            i <= depth,
            text@ == indent(i as nat),
        decreases depth - i,
    {
        text.append("  ");
        i = i + 1;
    }
    text
}

/// The name of a type: short for nested ones, whose parts are listed.
pub fn type_label<'a>(data_type: DataType, type_text: &'a str) -> (label: &'a str)
    ensures
        label@ == label_of_type(data_type, type_text@),
{
    match data_type {
        DataType::Struct => "struct",
        DataType::List => "list",
        DataType::LargeList => "large list",
        DataType::Mapping => "map",
        _ => type_text,
    }
}

fn append_schema(lines: &mut Vec<String>, field: &Field, depth: usize, seen: usize) -> (total: usize)
    requires
        depth <= MAX_SCHEMA_DEPTH,
        seen <= MAX_SCHEMA_FIELDS,
    ensures
        total <= MAX_SCHEMA_FIELDS,
        total == field_lines(*field, depth as nat, seen as nat).1,
        line_texts(final(lines)@) == line_texts(old(lines)@) + field_lines(
            *field,
            depth as nat,
            seen as nat,
        ).0,
    decreases MAX_SCHEMA_DEPTH - depth,
{
    let ghost before = line_texts(lines@);
    if seen >= MAX_SCHEMA_FIELDS {
        let text = crate::text::cat(indentation(depth).as_str(), "...");
        lines.push(text);
        assert(line_texts(lines@) =~= before + seq![text@]);
        return seen;
    }
    let label = type_label(field.data_type, field.type_text.as_str());
    let mut line = cat3(indentation(depth).as_str(), field.name.as_str(), ": ");
    line.append(label);
    let ghost first = line@;
    lines.push(line);
    assert(line_texts(lines@) =~= before + seq![first]);
    if depth >= MAX_SCHEMA_DEPTH {
        let text = crate::text::cat(indentation(depth + 1).as_str(), "...");
        lines.push(text);
        assert(line_texts(lines@) =~= before + seq![first, text@]);
        return seen + 1;
    }
    let children = &field.children;
    let count: usize = match field.data_type {
        DataType::Struct => children.len(),
        DataType::List | DataType::LargeList | DataType::Mapping => if children.len() > 0 {
            1
        } else {
            0
        },
        _ => 0,
    };
    let mut total: usize = seen + 1;
    let mut i: usize = 0;
    assert(line_texts(lines@) =~= before + seq![first] + children_lines(
        children@,
        0,
        (depth + 1) as nat,
        (seen + 1) as nat,
    ).0);
    while i < count
        invariant
            i <= count <= children@.len(),
            depth < MAX_SCHEMA_DEPTH,
            total <= MAX_SCHEMA_FIELDS,
            total == children_lines(
                children@,
                i as nat,
                (depth + 1) as nat,
                (seen + 1) as nat,
            ).1,
            line_texts(lines@) == before + seq![first] + children_lines(
                children@,
                i as nat,
                (depth + 1) as nat,
                (seen + 1) as nat,
            ).0,
        decreases count - i,
    {
        let ghost so_far = children_lines(
            children@,
            i as nat,
            (depth + 1) as nat,
            (seen + 1) as nat,
        ).0;
        total = append_schema(lines, &children[i], depth + 1, total);
        i = i + 1;
        assert(line_texts(lines@) =~= before + seq![first] + children_lines(
            children@,
            i as nat,
            (depth + 1) as nat,
            (seen + 1) as nat,
        ).0);
    }
    assert(before + seq![first] + children_lines(
        children@,
        count as nat,
        (depth + 1) as nat,
        (seen + 1) as nat,
    ).0 =~= before + (seq![first] + children_lines(
        children@,
        count as nat,
        (depth + 1) as nat,
        (seen + 1) as nat,
    ).0));
    total
}

fn join_lines(lines: &Vec<String>) -> (text: String)
    ensures
        text@ == joined_lines(line_texts(lines@)),
{
    let ghost all = line_texts(lines@);
    let mut text = String::new();
    let mut i: usize = 0;
    assert(text@ =~= joined_lines(all.take(0)));
    while i < lines.len()
        invariant
            i <= lines@.len(),
            all == line_texts(lines@),
            text@ == joined_lines(all.take(i as int)),
        decreases lines@.len() - i,
    {
        proof {
            assert(all.take(i + 1).drop_last() =~= all.take(i as int));
            assert(all.take(i + 1).last() == lines@[i as int]@);
            if i == 0 {
                assert(Seq::<char>::empty() + lines@[0]@ =~= lines@[0]@);
            }
        }
        if i > 0 {
            text.append("\n");
        }
        text.append(lines[i].as_str());
        i = i + 1;
    }
    assert(all.take(i as int) =~= all);
    text
}

/// A field and its parts, one to a line.
pub fn nested_schema_preview(field: &Field) -> (preview: String)
    ensures
        preview@ == joined_lines(field_lines(*field, 0, 0).0),
{
    let mut lines: Vec<String> = Vec::new();
    append_schema(&mut lines, field, 0, 0);
    assert(line_texts(lines@) =~= field_lines(*field, 0, 0).0);
    join_lines(&lines)
}

proof fn lemma_fields_seen(field: Field, depth: nat, seen: nat)
    requires
        seen <= MAX_SCHEMA_FIELDS,
    ensures
        seen <= field_lines(field, depth, seen).1 <= MAX_SCHEMA_FIELDS,
    decreases MAX_SCHEMA_DEPTH + 1 - depth, 0nat,
{
    if seen < MAX_SCHEMA_FIELDS && depth < MAX_SCHEMA_DEPTH {
        lemma_children_seen(
            field.children@,
            parts_listed(field.data_type, field.children@.len()),
            depth + 1,
            seen + 1,
        );
    }
}

proof fn lemma_children_seen(children: Seq<Field>, count: nat, depth: nat, seen: nat)
    requires
        seen <= MAX_SCHEMA_FIELDS,
    ensures
        seen <= children_lines(children, count, depth, seen).1 <= MAX_SCHEMA_FIELDS,
    decreases MAX_SCHEMA_DEPTH + 1 - depth, count + 1,
{
    if count > 0 && depth <= MAX_SCHEMA_DEPTH {
        lemma_children_seen(children, (count - 1) as nat, depth, seen);
        lemma_fields_seen(
            children[count - 1],
            depth,
            children_lines(children, (count - 1) as nat, depth, seen).1,
        );
    }
}

/// However large a schema is, no more than [`MAX_SCHEMA_FIELDS`] of its fields are
/// described.
pub proof fn law_schema_preview_is_bounded(field: Field)
    ensures
        field_lines(field, 0, 0).1 <= MAX_SCHEMA_FIELDS,
{
    lemma_fields_seen(field, 0, 0);
}

// ---------------------------------------------------------------------------
// Cells
// ---------------------------------------------------------------------------

/// The types whose values have parts.
pub open spec fn is_nested(data_type: DataType) -> bool {
    data_type == DataType::Struct || data_type == DataType::List || data_type
        == DataType::LargeList || data_type == DataType::Mapping
}

/// The types whose values are always short.
pub open spec fn is_short(data_type: DataType) -> bool {
    data_type.numeric() || data_type == DataType::Boolean || data_type == DataType::Date32
        || data_type == DataType::Date64 || data_type is Timestamp
}

/// Whether values of this type have parts.
pub fn nested_data_type(data_type: DataType) -> (yes: bool)
    ensures
        yes == is_nested(data_type),
{
    match data_type {
        DataType::Struct | DataType::List | DataType::LargeList | DataType::Mapping => true,
        _ => false,
    }
}

/// Whether values of this type are always short, so that they can be shown in
/// full.
pub fn safe_full_value(data_type: DataType) -> (yes: bool)
    ensures
        yes == is_short(data_type),
{
    match data_type {
        DataType::Boolean
        | DataType::Date32
        | DataType::Date64
        | DataType::Timestamp { .. } => true,
        _ => data_type.supports_numeric(),
    }
}

/// What is shown of one cell: a preview, and where the user asks for it the full
/// value of a short type or the parts of a nested one. `type_text` is the name of
/// the type.
pub fn inspect_cell(
    row: u64,
    column: usize,
    name: &str,
    data_type: DataType,
    type_text: &str,
    value: &CellValue,
    show_safe_full_value: bool,
    show_nested_value: bool,
) -> (details: CellDetails)
    ensures
        details.row == row,
        details.column == column,
        details.name@ == name@,
        details.data_type@ == type_text@,
        details.is_null == (*value is Null),
        details.value@ == value_text(*value, PREVIEW_LIMIT as nat, 0),
        match details.full_value {
            Some(text) => show_safe_full_value && !(*value is Null) && is_short(data_type) && text@
                == value_text(*value, PREVIEW_LIMIT as nat, 0),
            None => !(show_safe_full_value && !(*value is Null) && is_short(data_type)),
        },
        match details.expanded_value {
            Some(text) => show_nested_value && !(*value is Null) && is_nested(data_type) && text@
                == value_text(*value, EXPANDED_NESTED_LIMIT as nat, 0),
            None => !(show_nested_value && !(*value is Null) && is_nested(data_type)),
        },
{
    let is_null = match value {
        CellValue::Null => true,
        _ => false,
    };
    let full_value = if show_safe_full_value && !is_null && safe_full_value(data_type) {
        Some(format_cell_with_limit(value, PREVIEW_LIMIT))
    } else {
        None
    };
    let expanded_value = if show_nested_value && !is_null && nested_data_type(data_type) {
        Some(format_cell_with_limit(value, EXPANDED_NESTED_LIMIT))
    } else {
        None
    };
    CellDetails {
        row,
        column,
        name: name.to_owned(),
        data_type: type_text.to_owned(),
        is_null,
        value: format_cell_with_limit(value, PREVIEW_LIMIT),
        full_value,
        expanded_value,
    }
}

/// The row groups that have statistics are counted, and no others.
pub proof fn law_statistics_are_counted(statistics: Seq<Option<ColumnStatistics>>)
    ensures
        available_count(statistics) == statistics.filter(
            |known: Option<ColumnStatistics>| known is Some,
        ).len(),
    decreases statistics.len(),
{
    reveal(Seq::filter);
    if statistics.len() > 0 {
        law_statistics_are_counted(statistics.drop_last());
    }
}

/// The missing values of all row groups are known where each says how many it has, and
/// then they add up one by one.
pub proof fn law_missing_values_add_up(
    statistics: Seq<Option<ColumnStatistics>>,
    last: Option<ColumnStatistics>,
)
    ensures
        known_nulls(statistics) is Some <==> forall|i: int|
            0 <= i < statistics.len() ==> (#[trigger] statistics[i]) is Some
                && statistics[i]->0.null_count is Some,
        known_nulls(Seq::<Option<ColumnStatistics>>::empty()) == Some(0nat),
        known_nulls(statistics) is Some && last is Some && last->0.null_count is Some
            ==> known_nulls(statistics.push(last)) == Some(
            known_nulls(statistics)->0 + last->0.null_count->0 as nat,
        ),
    decreases statistics.len(),
{
    assert(statistics.push(last).drop_last() =~= statistics);
    if statistics.len() > 0 {
        let init = statistics.drop_last();
        let at = statistics.len() - 1;
        law_missing_values_add_up(init, last);
        assert(statistics[at] == statistics.last());
        if known_nulls(init) is None {
            let i = choose|i: int|
                0 <= i < init.len() && !((#[trigger] init[i]) is Some
                    && init[i]->0.null_count is Some);
            assert(statistics[i] == init[i]);
        } else if known_nulls(statistics) is Some {
            assert forall|i: int| 0 <= i < statistics.len() implies (
            #[trigger] statistics[i]) is Some && statistics[i]->0.null_count is Some by {
                if i < at {
                    assert(statistics[i] == init[i]);
                }
            }
        }
    }
}

/// A structure is shown with all its fields, one line each behind its own, in their order,
/// where they hold nothing themselves and are not too many; a field is shown with its name
/// and its type.
pub proof fn law_structure_is_shown_with_its_fields(field: Field, depth: nat, seen: nat, i: int)
    requires
        field.data_type == DataType::Struct,
        depth + 1 < MAX_SCHEMA_DEPTH,
        seen + 1 + field.children@.len() <= MAX_SCHEMA_FIELDS,
        forall|k: int|
            0 <= k < field.children@.len() ==> parts_listed(
                (#[trigger] field.children@[k]).data_type,
                field.children@[k].children@.len(),
            ) == 0,
        0 <= i < field.children@.len(),
    ensures
        ({
            let (lines, total) = field_lines(field, depth, seen);
            let child = field.children@[i];
            &&& total == seen + 1 + field.children@.len()
            &&& lines.len() == 1 + field.children@.len()
            &&& lines[0] == indent(depth) + field.name@ + ": "@ + label_of_type(
                field.data_type,
                field.type_text@,
            )
            &&& lines[i + 1] == indent(depth + 1) + child.name@ + ": "@ + label_of_type(
                child.data_type,
                child.type_text@,
            )
        }),
{
    let count = field.children@.len();
    lemma_leaf_lines(field.children@, count, depth + 1, seen + 1);
    let rest = children_lines(field.children@, count, depth + 1, seen + 1).0;
    let lines = field_lines(field, depth, seen).0;
    assert(lines[i + 1] == rest[i]);
}

proof fn lemma_leaf_lines(children: Seq<Field>, count: nat, depth: nat, seen: nat)
    requires
        count <= children.len(),
        depth < MAX_SCHEMA_DEPTH,
        seen + count <= MAX_SCHEMA_FIELDS,
        forall|k: int|
            0 <= k < children.len() ==> parts_listed(
                (#[trigger] children[k]).data_type,
                children[k].children@.len(),
            ) == 0,
    ensures
        ({
            let (lines, total) = children_lines(children, count, depth, seen);
            &&& total == seen + count
            &&& lines.len() == count
            &&& forall|k: int|
                0 <= k < count ==> #[trigger] lines[k] == indent(depth) + children[k].name@ + ": "@
                    + label_of_type(children[k].data_type, children[k].type_text@)
        }),
    decreases count,
{
    if count > 0 {
        lemma_leaf_lines(children, (count - 1) as nat, depth, seen);
        let child = children[count - 1];
        let before = children_lines(children, (count - 1) as nat, depth, seen).0;
        let line = indent(depth) + child.name@ + ": "@ + label_of_type(
            child.data_type,
            child.type_text@,
        );
        assert(parts_listed(child.data_type, child.children@.len()) == 0);
        let (rest, total) = children_lines(child.children@, 0, depth + 1, seen + count);
        assert(rest =~= Seq::<Seq<char>>::empty());
        let listed = (seen + count - 1) as nat;
        let (last, after) = field_lines(child, depth, listed);
        assert(last =~= seq![line]);
        let lines = children_lines(children, count, depth, seen).0;
        assert(lines == before + last);
        assert forall|k: int| 0 <= k < count implies #[trigger] lines[k] == indent(depth)
            + children[k].name@ + ": "@ + label_of_type(
            children[k].data_type,
            children[k].type_text@,
        ) by {
            if k < count - 1 {
                assert(lines[k] == before[k]);
            }
        }
    }
}

/// Each level of a schema is set in by two more spaces.
pub proof fn law_levels_are_set_in(depth: nat, i: int)
    ensures
        indent(depth).len() == 2 * depth,
        0 <= i < 2 * depth ==> indent(depth)[i] == ' ',
    decreases depth,
{
    reveal_strlit("  ");
    if depth > 0 {
        law_levels_are_set_in((depth - 1) as nat, i);
    }
}

} // verus!
