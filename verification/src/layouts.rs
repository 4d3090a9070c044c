//! Keeping column layouts between runs, and finding columns by name.


use crate::projection::all_columns;
use crate::schema::{DataType, Field};
use crate::seqs::{first_index, lemma_first_index, lemma_first_index_is};
use crate::session::{GridLayoutPreference, MAX_LAYOUT_COLUMNS};
use crate::state::{is_order, lemma_order_is_onto, ColumnLayout};
use crate::table::{law_parts_are_split_apart, split_at, texts};
use crate::text::{cat3, chars_of, contains, contains_text, same_text};
use vstd::prelude::*;
use vstd::string::StringExecFns;

verus! {

/// How many columns a search lists.
pub const MAX_LISTED_COLUMNS: usize = 128;

// ---------------------------------------------------------------------------
// Keys
// ---------------------------------------------------------------------------

/// The names with a separator between them.
pub open spec fn joined_names(names: Seq<Seq<char>>) -> Seq<char>
    decreases names.len(),
{
    if names.len() == 0 {
        Seq::empty()
    } else if names.len() == 1 {
        names[0]
    } else {
        joined_names(names.drop_last()).push('\u{1f}') + names.last()
    }
}

/// The key under which the layout of these columns is kept; none where there are
/// too many.
pub fn schema_key(names: &Vec<String>) -> (key: Option<String>)
    ensures
        match key {
            Some(key) => names@.len() <= MAX_LAYOUT_COLUMNS && key@ == joined_names(texts(names@)),
            None => names@.len() > MAX_LAYOUT_COLUMNS,
        },
{
    if names.len() > MAX_LAYOUT_COLUMNS {
        return None;
    }
    let ghost all = texts(names@);
    let mut key = String::new();
    let mut i: usize = 0;
    assert(key@ =~= joined_names(all.take(0)));
    while i < names.len()
        invariant
            i <= names@.len(),
            all == texts(names@),
            key@ == joined_names(all.take(i as int)),
        decreases names@.len() - i,
    {
        proof {
            assert(all.take(i + 1).drop_last() =~= all.take(i as int));
            assert(all.take(i + 1).last() == names@[i as int]@);
            if i == 0 {
                assert(Seq::<char>::empty() + names@[0]@ =~= names@[0]@);
            }
        }
        if i > 0 {
            key.push('\u{1f}');
        }
        key.append(names[i].as_str());
        i = i + 1;
    }
    assert(all.take(i as int) =~= all);
    Some(key)
}

// ---------------------------------------------------------------------------
// Layouts by name
// ---------------------------------------------------------------------------

/// The columns that have these names, in the order of the names; names that no
/// column has are passed over.
pub open spec fn columns_named(names: Seq<Seq<char>>, wanted: Seq<Seq<char>>) -> Seq<usize>
    decreases wanted.len(),
{
    if wanted.len() == 0 {
        Seq::empty()
    } else {
        let before = columns_named(names, wanted.drop_last());
        match first_index(names, wanted.last()) {
            Some(column) => before.push(column as usize),
            None => before,
        }
    }
}

/// Those of the first `count` columns that do not stand in the list, in order.
pub open spec fn columns_left(listed: Seq<usize>, count: nat) -> Seq<usize>
    decreases count,
{
    if count == 0 {
        Seq::empty()
    } else {
        let before = columns_left(listed, (count - 1) as nat);
        if listed.contains((count - 1) as usize) {
            before
        } else {
            before.push((count - 1) as usize)
        }
    }
}

/// The order that was kept, and behind it the columns that it does not name.
pub open spec fn restored_order_of(names: Seq<Seq<char>>, kept: Seq<Seq<char>>) -> Seq<usize> {
    let listed = columns_named(names, kept);
    listed + columns_left(listed, names.len())
}

/// The names of these columns; a column that has no name is passed over.
pub open spec fn names_of_columns(columns: Seq<usize>, names: Seq<Seq<char>>) -> Seq<Seq<char>>
    decreases columns.len(),
{
    if columns.len() == 0 {
        Seq::empty()
    } else {
        let before = names_of_columns(columns.drop_last(), names);
        if columns.last() < names.len() {
            before.push(names[columns.last() as int])
        } else {
            before
        }
    }
}

/// The names of the first `count` columns that are hidden.
pub open spec fn hidden_names(hidden: Set<usize>, names: Seq<Seq<char>>, count: nat) -> Seq<
    Seq<char>,
>
    decreases count,
{
    if count == 0 {
        Seq::empty()
    } else {
        let before = hidden_names(hidden, names, (count - 1) as nat);
        if hidden.contains((count - 1) as usize) {
            before.push(names[count - 1])
        } else {
            before
        }
    }
}

/// The width that is kept for a name: the last one.
pub open spec fn kept_width(widths: Seq<(String, u16)>, name: Seq<char>) -> Option<u16>
    decreases widths.len(),
{
    if widths.len() == 0 {
        None
    } else if widths.last().0@ == name {
        Some(widths.last().1)
    } else {
        kept_width(widths.drop_last(), name)
    }
}

fn find_name(names: &Vec<String>, name: &str) -> (column: Option<usize>)
    ensures
        match column {
            Some(column) => first_index(texts(names@), name@) == Some(column as int) && column
                < names@.len(),
            None => first_index(texts(names@), name@) is None,
        },
{
    let ghost all = texts(names@);
    let mut i: usize = 0;
    while i < names.len()
        invariant
            i <= names@.len(),
            all == texts(names@),
            forall|k: int| 0 <= k < i ==> #[trigger] all[k] != name@,
        decreases names@.len() - i,
    {
        assert(all[i as int] == names@[i as int]@);
        if same_text(names[i].as_str(), name) {
            proof {
                lemma_first_index_is(all, name@, i as int);
            }
            return Some(i);
        }
        i = i + 1;
    }
    proof {
        lemma_first_index(all, name@);
        if all.contains(name@) {
            let k = choose|k: int| 0 <= k < all.len() && all[k] == name@;
            assert(all[k] != name@);
        }
    }
    None
}

/// The columns that have these names.
pub fn columns_by_name(names: &Vec<String>, wanted: &Vec<String>) -> (columns: Vec<usize>)
    ensures
        columns@ == columns_named(texts(names@), texts(wanted@)),
{
    let ghost all = texts(wanted@);
    let mut columns: Vec<usize> = Vec::new();
    let mut i: usize = 0;
    assert(columns@ =~= columns_named(texts(names@), all.take(0)));
    while i < wanted.len()
        invariant
            i <= wanted@.len(),
            all == texts(wanted@),
            columns@ == columns_named(texts(names@), all.take(i as int)),
        decreases wanted@.len() - i,
    {
        proof {
            assert(all.take(i + 1).drop_last() =~= all.take(i as int));
            assert(all.take(i + 1).last() == wanted@[i as int]@);
        }
        if let Some(column) = find_name(names, wanted[i].as_str()) {
            columns.push(column);
        }
        i = i + 1;
    }
    assert(all.take(i as int) =~= all);
    columns
}

fn lists(columns: &Vec<usize>, column: usize) -> (yes: bool)
    ensures
        yes == columns@.contains(column),
{
    match crate::state::position_of(columns, column) {
        Some(_) => {
            proof {
                lemma_first_index(columns@, column);
            }
            true
        },
        None => {
            proof {
                lemma_first_index(columns@, column);
            }
            false
        },
    }
}

/// The order that was kept, and behind it the columns that it does not name.
pub fn restored_order(names: &Vec<String>, kept: &Vec<String>) -> (order: Vec<usize>)
    ensures
        order@ == restored_order_of(texts(names@), texts(kept@)),
{
    let listed = columns_by_name(names, kept);
    let mut order: Vec<usize> = Vec::new();
    let mut i: usize = 0;
    while i < listed.len()
        invariant
            i <= listed@.len(),
            order@ == listed@.take(i as int),
        decreases listed@.len() - i,
    {
        order.push(listed[i]);
        i = i + 1;
        assert(order@ =~= listed@.take(i as int));
    }
    let mut column: usize = 0;
    assert(order@ =~= listed@ + columns_left(listed@, 0));
    while column < names.len()
        invariant
            column <= names@.len(),
            order@ == listed@ + columns_left(listed@, column as nat),
        decreases names@.len() - column,
    {
        let ghost before = columns_left(listed@, column as nat);
        if !lists(&listed, column) {
            order.push(column);
            assert(order@ =~= listed@ + before.push(column));
        }
        column = column + 1;
    }
    order
}

/// The widths that are kept for these columns, where there are some.
pub fn restored_widths(names: &Vec<String>, kept: &Vec<(String, u16)>) -> (widths: Vec<Option<u16>>)
    ensures
        widths@ == texts(names@).map_values(|name: Seq<char>| kept_width(kept@, name)),
{
    let mut widths: Vec<Option<u16>> = Vec::new();
    let mut i: usize = 0;
    while i < names.len()
        invariant
            i <= names@.len(),
            widths@.len() == i,
            forall|k: int|
                0 <= k < i ==> #[trigger] widths@[k] == kept_width(kept@, names@[k]@),
        decreases names@.len() - i,
    {
        widths.push(width_kept(kept, names[i].as_str()));
        i = i + 1;
    }
    assert(widths@ =~= texts(names@).map_values(|name: Seq<char>| kept_width(kept@, name)));
    widths
}

fn width_kept(kept: &Vec<(String, u16)>, name: &str) -> (width: Option<u16>)
    ensures
        width == kept_width(kept@, name@),
{
    let mut i: usize = kept.len();
    assert(kept@.take(i as int) =~= kept@);
    while i > 0
        invariant
            i <= kept@.len(),
            kept_width(kept@, name@) == kept_width(kept@.take(i as int), name@),
        decreases i,
    {
        proof {
            assert(kept@.take(i as int).drop_last() =~= kept@.take(i - 1));
        }
        if same_text(kept[i - 1].0.as_str(), name) {
            return Some(kept[i - 1].1);
        }
        i = i - 1;
    }
    None
}

fn column_names(columns: &[usize], names: &Vec<String>) -> (named: Vec<String>)
    ensures
        texts(named@) == names_of_columns(columns@, texts(names@)),
{
    let mut named: Vec<String> = Vec::new();
    let mut i: usize = 0;
    assert(texts(named@) =~= names_of_columns(columns@.take(0), texts(names@)));
    while i < columns.len()
        invariant
            i <= columns@.len(),
            texts(named@) == names_of_columns(columns@.take(i as int), texts(names@)),
        decreases columns@.len() - i,
    {
        let ghost before = texts(named@);
        let column: usize = columns[i];
        proof {
            assert(columns@.take(i + 1).drop_last() =~= columns@.take(i as int));
        }
        if column < names.len() {
            named.push(names[column].as_str().to_owned());
            assert(texts(named@) =~= before.push(names@[column as int]@));
        }
        i = i + 1;
    }
    assert(columns@.take(i as int) =~= columns@);
    named
}

fn names_hidden(layout: &ColumnLayout, names: &Vec<String>) -> (named: Vec<String>)
    ensures
        texts(named@) == hidden_names(layout.hidden_columns(), texts(names@), names@.len()),
{
    let mut named: Vec<String> = Vec::new();
    let mut i: usize = 0;
    assert(texts(named@) =~= hidden_names(layout.hidden_columns(), texts(names@), 0));
    while i < names.len()
        invariant
            i <= names@.len(),
            texts(named@) == hidden_names(layout.hidden_columns(), texts(names@), i as nat),
        decreases names@.len() - i,
    {
        let ghost before = texts(named@);
        if layout.is_hidden(i) {
            named.push(names[i].as_str().to_owned());
            assert(texts(named@) =~= before.push(names@[i as int]@));
        }
        i = i + 1;
    }
    named
}

/// What the widths say, each for the column of the same place.
pub open spec fn width_models(widths: Seq<(String, u16)>) -> Seq<(Seq<char>, u16)> {
    widths.map_values(|width: (String, u16)| (width.0@, width.1))
}

/// The layout as it is kept, by the names of the columns; none where there are too
/// many. `widths` are the widths in whole points.
pub fn layout_preference(names: &Vec<String>, layout: &ColumnLayout, widths: &Vec<u16>) -> (kept:
    Option<GridLayoutPreference>)
    requires
        widths@.len() == names@.len(),
    ensures
        match kept {
            Some(kept) => names@.len() <= MAX_LAYOUT_COLUMNS && kept.schema_key@ == joined_names(
                texts(names@),
            ) && texts(kept.order@) == names_of_columns(layout.column_order(), texts(names@))
                && texts(kept.hidden@) == hidden_names(
                layout.hidden_columns(),
                texts(names@),
                names@.len(),
            ) && width_models(kept.widths@) == Seq::new(
                names@.len(),
                |i: int| (names@[i]@, widths@[i]),
            ),
            None => names@.len() > MAX_LAYOUT_COLUMNS,
        },
{
    let key = match schema_key(names) {
        Some(key) => key,
        None => return None,
    };
    let mut named: Vec<(String, u16)> = Vec::new();
    let mut i: usize = 0;
    while i < names.len()
        invariant
            i <= names@.len(),
            widths@.len() == names@.len(),
            width_models(named@) == Seq::new(i as nat, |k: int| (names@[k]@, widths@[k])),
        decreases names@.len() - i,
    {
        let ghost before = width_models(named@);
        named.push((names[i].as_str().to_owned(), widths[i]));
        assert(width_models(named@) =~= before.push((names@[i as int]@, widths@[i as int])));
        i = i + 1;
        assert(width_models(named@) =~= Seq::new(i as nat, |k: int| (names@[k]@, widths@[k])));
    }
    Some(
        GridLayoutPreference {
            schema_key: key,
            order: column_names(layout.order(), names),
            hidden: names_hidden(layout, names),
            widths: named,
        },
    )
}

proof fn lemma_named_back(columns: Seq<usize>, names: Seq<Seq<char>>)
    requires
        names.no_duplicates(),
        forall|i: int| 0 <= i < columns.len() ==> #[trigger] columns[i] < names.len(),
    ensures
        columns_named(names, names_of_columns(columns, names)) == columns,
    decreases columns.len(),
{
    if columns.len() == 0 {
        assert(columns_named(names, names_of_columns(columns, names)) =~= columns);
    } else {
        let init = columns.drop_last();
        assert forall|i: int| 0 <= i < init.len() implies #[trigger] init[i] < names.len() by {
            assert(init[i] == columns[i]);
        }
        lemma_named_back(init, names);
        let last = columns[columns.len() - 1];
        assert(last < names.len());
        let named = names_of_columns(columns, names);
        assert(named.drop_last() =~= names_of_columns(init, names));
        lemma_first_index(names, names[last as int]);
        assert(names.contains(names[last as int]));
        let found = first_index(names, names[last as int])->0;
        assert(found == last) by {
            if found != last {
                assert(names[found] == names[last as int]);
            }
        }
        assert(init.push(last) =~= columns);
    }
}

proof fn lemma_none_left(listed: Seq<usize>, count: nat)
    requires
        forall|column: int| 0 <= column < count ==> listed.contains(#[trigger] (column as usize)),
    ensures
        columns_left(listed, count) == Seq::<usize>::empty(),
    decreases count,
{
    if count > 0 {
        lemma_none_left(listed, (count - 1) as nat);
        assert(listed.contains((count - 1) as usize));
    }
}

/// An order that is kept by the names of the columns comes back as it was, where
/// no two columns share a name.
pub proof fn law_kept_order_comes_back(order: Seq<usize>, names: Seq<Seq<char>>)
    requires
        is_order(order),
        order.len() == names.len(),
        names.len() <= usize::MAX,
        names.no_duplicates(),
    ensures
        restored_order_of(names, names_of_columns(order, names)) == order,
{
    lemma_named_back(order, names);
    assert forall|column: int| 0 <= column < names.len() implies order.contains(
        #[trigger] (column as usize),
    ) by {
        lemma_order_is_onto(order, column as usize);
    }
    lemma_none_left(order, names.len());
    assert(order + Seq::<usize>::empty() =~= order);
}

// ---------------------------------------------------------------------------
// Searching columns
// ---------------------------------------------------------------------------

/// `text` in lower case.
pub uninterp spec fn lower_case(text: Seq<char>) -> Seq<char>;

/// `str::to_lowercase`: the text in lower case, by the rules of Unicode.
#[verifier::external_body]
pub(crate) fn lowercase(text: &str) -> (lower: String)
    ensures
        lower@ == lower_case(text@),
{
    text.to_lowercase()
}

/// Whether a name is found by a search that is in lower case.
pub open spec fn found_by(name: Seq<char>, search: Seq<char>) -> bool {
    search.len() == 0 || contains_text(lower_case(name), search)
}

/// The first [`MAX_LISTED_COLUMNS`] of the first `count` columns whose names a
/// search finds.
pub open spec fn columns_found(names: Seq<Seq<char>>, search: Seq<char>, count: nat) -> Seq<usize>
    decreases count,
{
    if count == 0 {
        Seq::empty()
    } else {
        let before = columns_found(names, search, (count - 1) as nat);
        if before.len() < MAX_LISTED_COLUMNS && found_by(names[count - 1], search) {
            before.push((count - 1) as usize)
        } else {
            before
        }
    }
}

/// The first columns whose names a search finds, whatever the case of letters; all
/// where nothing is searched.
pub fn search_columns(names: &Vec<String>, search: &str) -> (columns: Vec<usize>)
    ensures
        columns@ == columns_found(texts(names@), lower_case(search@), names@.len()),
{
    let wanted = lowercase(search);
    let all: bool = crate::text::chars_of(wanted.as_str()).len() == 0;
    let mut columns: Vec<usize> = Vec::new();
    let mut i: usize = 0;
    while i < names.len()
        invariant
            i <= names@.len(),
            wanted@ == lower_case(search@),
            all == (wanted@.len() == 0),
            columns@ == columns_found(texts(names@), wanted@, i as nat),
        decreases names@.len() - i,
    {
        assert(texts(names@)[i as int] == names@[i as int]@);
        if columns.len() < MAX_LISTED_COLUMNS && (all || contains(
            lowercase(names[i].as_str()).as_str(),
            wanted.as_str(),
        )) {
            columns.push(i);
        }
        i = i + 1;
    }
    columns
}

// ---------------------------------------------------------------------------
// Short names of types
// ---------------------------------------------------------------------------

/// The short name of a type. `full` is the full name of the type, or of the type of
/// the innermost items of a list.
pub open spec fn short_label(field: Field, full: Seq<char>) -> Seq<char>
    decreases field,
{
    match field.data_type {
        DataType::Boolean => "bool"@,
        DataType::Int8 => "i8"@,
        DataType::Int16 => "i16"@,
        DataType::Int32 => "i32"@,
        DataType::Int64 => "i64"@,
        DataType::UInt8 => "u8"@,
        DataType::UInt16 => "u16"@,
        DataType::UInt32 => "u32"@,
        DataType::UInt64 => "u64"@,
        DataType::Float16 => "f16"@,
        DataType::Float32 => "f32"@,
        DataType::Float64 => "f64"@,
        DataType::Utf8 | DataType::LargeUtf8 | DataType::Utf8View => "str"@,
        DataType::List | DataType::LargeList | DataType::FixedSizeList => if field.children.len()
            > 0 {
            "list<"@ + short_label(field.children[0], full) + ">"@
        } else {
            full
        },
        _ => full,
    }
}

/// The short name of a type. `full` is the full name of the type, or of the type of
/// the innermost items of a list.
pub fn type_label(field: &Field, full: &str) -> (label: String)
    ensures
        label@ == short_label(*field, full@),
    decreases field,
{
    match field.data_type {
        DataType::Boolean => "bool".to_owned(),
        DataType::Int8 => "i8".to_owned(),
        DataType::Int16 => "i16".to_owned(),
        DataType::Int32 => "i32".to_owned(),
        DataType::Int64 => "i64".to_owned(),
        DataType::UInt8 => "u8".to_owned(),
        DataType::UInt16 => "u16".to_owned(),
        DataType::UInt32 => "u32".to_owned(),
        DataType::UInt64 => "u64".to_owned(),
        DataType::Float16 => "f16".to_owned(),
        DataType::Float32 => "f32".to_owned(),
        DataType::Float64 => "f64".to_owned(),
        DataType::Utf8 | DataType::LargeUtf8 | DataType::Utf8View => "str".to_owned(),
        DataType::List | DataType::LargeList | DataType::FixedSizeList => {
            if field.children.len() > 0 {
                cat3("list<", type_label(&field.children[0], full).as_str(), ">")
            } else {
                full.to_owned()
            }
        },
        _ => full.to_owned(),
    }
}

// ---------------------------------------------------------------------------
// Fitting a column to its cells
// ---------------------------------------------------------------------------

/// How many rows of each batch are measured.
pub const MEASURED_ROWS: usize = 64;

/// Whether the name of a column and its cells have at most so many characters, and one
/// of them has as many.
pub open spec fn is_widest(chars: nat, name: Seq<char>, cells: Seq<Seq<char>>) -> bool {
    &&& name.len() <= chars
    &&& forall|i: int| 0 <= i < cells.len() ==> (#[trigger] cells[i]).len() <= chars
    &&& name.len() == chars || exists|i: int|
        0 <= i < cells.len() && (#[trigger] cells[i]).len() == chars
}

/// The most characters that the name of a column or one of its cells has.
pub fn widest_text(name: &str, cells: &Vec<String>) -> (chars: usize)
    ensures
        is_widest(chars as nat, name@, texts(cells@)),
{
    let mut chars: usize = chars_of(name).len();
    let mut i: usize = 0;
    while i < cells.len()
        invariant
            i <= cells@.len(),
            is_widest(chars as nat, name@, texts(cells@).take(i as int)),
        decreases cells@.len() - i,
    {
        let ghost before = texts(cells@).take(i as int);
        let ghost after = texts(cells@).take(i + 1);
        let length: usize = chars_of(cells[i].as_str()).len();
        assert(after =~= before.push(cells@[i as int]@));
        proof {
            assert(after[i as int].len() == length);
            if length <= chars && name@.len() != chars {
                let k = choose|k: int| 0 <= k < before.len() && (#[trigger] before[k]).len() == chars;
                assert(after[k].len() == chars);
            }
            assert forall|k: int| 0 <= k < after.len() implies (#[trigger] after[k]).len() <= (
            if length > chars {
                length
            } else {
                chars
            }) by {
                if k < i {
                    assert(before[k].len() <= chars);
                }
            }
        }
        if length > chars {
            chars = length;
        }
        i = i + 1;
    }
    assert(texts(cells@).take(i as int) =~= texts(cells@));
    chars
}

// ---------------------------------------------------------------------------
// Laws
// ---------------------------------------------------------------------------

/// The key of some columns says what they are called: their names stand between the
/// separators, so that other names have another key.
pub proof fn law_schema_key_tells_the_names(names: Seq<Seq<char>>)
    requires
        names.len() > 0,
        forall|i: int|
            0 <= i < names.len() ==> !(#[trigger] names[i]).contains('\u{1f}'),
    ensures
        split_at(joined_names(names), '\u{1f}') == names,
    decreases names.len(),
{
    let last = names.last();
    assert(!names[names.len() - 1].contains('\u{1f}'));
    if names.len() == 1 {
        law_parts_are_split_apart(Seq::empty(), last, '\u{1f}');
        assert(names =~= seq![last]);
    } else {
        let init = names.drop_last();
        assert forall|i: int| 0 <= i < init.len() implies !(#[trigger] init[i]).contains(
            '\u{1f}',
        ) by {
            assert(init[i] == names[i]);
        }
        law_schema_key_tells_the_names(init);
        law_parts_are_split_apart(joined_names(init), last, '\u{1f}');
        assert(names =~= init.push(last));
    }
}

/// The columns that an order does not name follow it in the order of the dataset.
pub proof fn law_unnamed_columns_keep_their_order(listed: Seq<usize>, count: nat)
    ensures
        columns_left(listed, count) == all_columns(count).filter(
            |column: usize| !listed.contains(column),
        ),
    decreases count,
{
    reveal(Seq::filter);
    let all = all_columns(count);
    if count > 0 {
        law_unnamed_columns_keep_their_order(listed, (count - 1) as nat);
        assert(all.drop_last() =~= all_columns((count - 1) as nat));
        assert(all.last() == (count - 1) as usize);
    }
}

/// Every column stands in an order that is restored, whatever names were kept.
pub proof fn law_restored_order_has_every_column(
    names: Seq<Seq<char>>,
    kept: Seq<Seq<char>>,
    column: usize,
)
    requires
        column < names.len(),
    ensures
        restored_order_of(names, kept).contains(column),
{
    let listed = columns_named(names, kept);
    let rest = columns_left(listed, names.len());
    let order = listed + rest;
    if listed.contains(column) {
        let i = choose|i: int| 0 <= i < listed.len() && listed[i] == column;
        assert(order[i] == column);
    } else {
        lemma_left_over(listed, names.len(), column);
        let i = choose|i: int| 0 <= i < rest.len() && rest[i] == column;
        assert(order[listed.len() + i] == column);
    }
}

proof fn lemma_left_over(listed: Seq<usize>, count: nat, column: usize)
    requires
        column < count,
        !listed.contains(column),
    ensures
        columns_left(listed, count).contains(column),
    decreases count,
{
    let before = columns_left(listed, (count - 1) as nat);
    let all = columns_left(listed, count);
    if column == count - 1 {
        assert(all[before.len() as int] == column);
    } else {
        lemma_left_over(listed, (count - 1) as nat, column);
        let i = choose|i: int| 0 <= i < before.len() && before[i] == column;
        assert(all[i] == column);
    }
}

/// The names that are kept as hidden are those of the hidden columns, and of no others.
pub proof fn law_hidden_names_are_those_of_hidden_columns(
    hidden: Set<usize>,
    names: Seq<Seq<char>>,
    count: nat,
)
    requires
        count <= names.len() <= usize::MAX,
    ensures
        hidden_names(hidden, names, count) == all_columns(count).filter(
            |column: usize| hidden.contains(column),
        ).map_values(|column: usize| names[column as int]),
    decreases count,
{
    reveal(Seq::filter);
    let all = all_columns(count);
    let wanted = |column: usize| hidden.contains(column);
    let name = |column: usize| names[column as int];
    if count > 0 {
        law_hidden_names_are_those_of_hidden_columns(hidden, names, (count - 1) as nat);
        assert(all.drop_last() =~= all_columns((count - 1) as nat));
        let before = all.drop_last().filter(wanted);
        assert(before.push(all.last()).map_values(name) =~= before.map_values(name).push(
            names[count - 1],
        ));
    } else {
        assert(hidden_names(hidden, names, count) =~= all.filter(wanted).map_values(name));
    }
}

/// Of the widths that are kept for a name the last one counts.
pub proof fn law_last_kept_width_counts(widths: Seq<(String, u16)>, name: Seq<char>)
    ensures
        match kept_width(widths, name) {
            Some(width) => exists|i: int|
                0 <= i < widths.len() && (#[trigger] widths[i]).0@ == name && widths[i].1 == width
                    && forall|k: int| i < k < widths.len() ==> (#[trigger] widths[k]).0@ != name,
            None => forall|i: int| 0 <= i < widths.len() ==> (#[trigger] widths[i]).0@ != name,
        },
    decreases widths.len(),
{
    if widths.len() > 0 {
        let last = widths.len() - 1;
        if widths[last].0@ != name {
            let init = widths.drop_last();
            law_last_kept_width_counts(init, name);
            if let Some(width) = kept_width(init, name) {
                let i = choose|i: int|
                    0 <= i < init.len() && (#[trigger] init[i]).0@ == name && init[i].1 == width
                        && forall|k: int|
                        i < k < init.len() ==> (#[trigger] init[k]).0@ != name;
                assert(widths[i].0@ == name && widths[i].1 == width);
                assert forall|k: int| i < k < widths.len() implies (#[trigger] widths[k]).0@
                    != name by {
                    if k < last {
                        assert(init[k].0@ != name);
                    }
                }
            } else {
                assert forall|i: int| 0 <= i < widths.len() implies (#[trigger] widths[i]).0@
                    != name by {
                    if i < last {
                        assert(init[i].0@ != name);
                    }
                }
            }
        } else {
            assert(widths[last].0@ == name);
        }
    }
}

/// A search lists the columns it finds in their order, and leaves one out only where as
/// many as may be are listed before it.
pub proof fn law_search_lists_the_first_found(names: Seq<Seq<char>>, search: Seq<char>, count: nat)
    requires
        count <= names.len() <= usize::MAX,
    ensures
        ({
            let found = all_columns(count).filter(
                |column: usize| found_by(names[column as int], search),
            );
            columns_found(names, search, count) == if found.len() <= MAX_LISTED_COLUMNS {
                found
            } else {
                found.take(MAX_LISTED_COLUMNS as int)
            }
        }),
    decreases count,
{
    reveal(Seq::filter);
    let all = all_columns(count);
    let wanted = |column: usize| found_by(names[column as int], search);
    let most = MAX_LISTED_COLUMNS as int;
    if count > 0 {
        law_search_lists_the_first_found(names, search, (count - 1) as nat);
        assert(all.drop_last() =~= all_columns((count - 1) as nat));
        assert(all.last() == (count - 1) as usize);
        let before = all.drop_last().filter(wanted);
        let listed = columns_found(names, search, (count - 1) as nat);
        if before.len() >= most {
            assert(before.take(most) =~= listed);
            assert(before.push(all.last()).take(most) =~= listed);
        }
    } else {
        assert(all.filter(wanted) =~= Seq::<usize>::empty());
    }
}

/// Columns that are hidden and kept by their names are hidden again, and no others, where no
/// two columns share a name.
pub proof fn law_kept_hidden_columns_come_back(
    hidden: Set<usize>,
    names: Seq<Seq<char>>,
    count: nat,
    column: usize,
)
    requires
        count <= names.len() <= usize::MAX,
        names.no_duplicates(),
    ensures
        columns_named(names, hidden_names(hidden, names, count)).contains(column) <==> column < count
            && hidden.contains(column),
    decreases count,
{
    let kept = hidden_names(hidden, names, count);
    let found = columns_named(names, kept);
    if count > 0 {
        law_kept_hidden_columns_come_back(hidden, names, (count - 1) as nat, column);
        let last = (count - 1) as usize;
        let before = hidden_names(hidden, names, (count - 1) as nat);
        let earlier = columns_named(names, before);
        if hidden.contains(last) {
            assert(kept.drop_last() =~= before);
            assert(kept.last() == names[count - 1]);
            lemma_first_index_is(names, names[count - 1], count - 1);
            assert(found == earlier.push(last));
            if earlier.contains(column) {
                let k = choose|k: int| 0 <= k < earlier.len() && earlier[k] == column;
                assert(found[k] == column);
            }
            if column == last {
                assert(found[earlier.len() as int] == column);
            }
            if found.contains(column) && column != last {
                let k = choose|k: int| 0 <= k < found.len() && found[k] == column;
                assert(earlier[k] == column);
            }
        }
    }
}

} // verus!
