//! What hangs below the columns of a batch: the elements of lists, the entries of
//! maps, the values of dictionaries. Arrow counts them in offsets and keys of limited
//! width and makes room for them beforehand, so rows can be moved and batches put
//! together only as far as these reach.

use arrow_array::Array;
use arrow_schema::DataType::{
    self, Binary, Dictionary, FixedSizeBinary, FixedSizeList, LargeBinary, LargeList,
    LargeListView, LargeUtf8, List, ListView, Struct, Utf8,
};

use crate::batch::{batch_width, column_count, row_count, rows_of, Batch};
use vstd::prelude::*;

verus! {

/// The type of an array, as far as it says how its values are held. Types without arrays
/// below them that hold no texts or bytes are one, and so are unions and run-end encoded
/// values.
#[derive(Clone, Copy, Debug, PartialEq, Eq, Structural)]
pub enum NodeType {
    Utf8,
    LargeUtf8,
    Binary,
    LargeBinary,
    /// So many bytes each.
    FixedSizeBinary(i32),
    Struct,
    List,
    LargeList,
    ListView,
    LargeListView,
    /// Lists of keys and values.
    Entries,
    /// So many elements each.
    FixedSizeList(i32),
    /// Keys of so many bytes, and whether they are signed.
    Dictionary(Option<usize>, bool),
    Other,
}

/// How an array holds its values.
#[derive(Clone, Copy, Debug, PartialEq, Eq, Structural)]
pub enum NodeKind {
    /// Texts or bytes, with offsets of either width.
    Text,
    /// So many bytes each.
    FixedSizeBinary(i32),
    Struct,
    /// Lists with offsets of either width.
    List,
    /// Lists with an offset and a size each.
    ListView,
    /// Lists of keys and values.
    Entries,
    /// Lists of so many elements each.
    FixedSizeList(i32),
    /// Keys of so many bytes into a dictionary, and whether they are signed.
    Dictionary(Option<usize>, bool),
    /// Numbers, dates, times and other values without arrays below them; also unions,
    /// and run-end encoded values.
    Other,
}

/// How large an array is.
#[derive(Clone, Copy, Debug, PartialEq, Eq, Structural)]
pub struct NodeSize {
    pub len: usize,
    /// The length of its last buffer: what texts, or values of a fixed size, are cut from.
    pub bytes: usize,
    /// How many arrays it is built on.
    pub children: usize,
    /// Whether it holds numbers, dates or times.
    pub primitive: bool,
    /// Whether it holds texts, bytes or lists with offsets of 64 bits.
    pub wide: bool,
}

/// What is counted of an array.
#[derive(Clone, Copy, Debug, PartialEq, Eq, Structural)]
pub struct NodeCounts {
    pub len: usize,
    /// The length of its last buffer.
    pub bytes: usize,
    pub children: usize,
    pub primitive: bool,
}

/// The type of an array below a column. The path names, from the column down, the
/// child that is gone to.
pub uninterp spec fn node_type(batch: Batch, column: int, path: Seq<usize>) -> NodeType;

/// What is counted of an array below a column.
pub uninterp spec fn node_counts(batch: Batch, column: int, path: Seq<usize>) -> NodeCounts;

/// How arrays of a type hold their values.
pub open spec fn kind_of(node: NodeType) -> NodeKind {
    match node {
        NodeType::Utf8 => NodeKind::Text,
        NodeType::LargeUtf8 => NodeKind::Text,
        NodeType::Binary => NodeKind::Text,
        NodeType::LargeBinary => NodeKind::Text,
        NodeType::FixedSizeBinary(width) => NodeKind::FixedSizeBinary(width),
        NodeType::Struct => NodeKind::Struct,
        NodeType::List => NodeKind::List,
        NodeType::LargeList => NodeKind::List,
        NodeType::ListView => NodeKind::ListView,
        NodeType::LargeListView => NodeKind::ListView,
        NodeType::Entries => NodeKind::Entries,
        NodeType::FixedSizeList(width) => NodeKind::FixedSizeList(width),
        NodeType::Dictionary(width, signed) => NodeKind::Dictionary(width, signed),
        NodeType::Other => NodeKind::Other,
    }
}

/// Whether arrays of a type have offsets of 64 bits.
pub open spec fn is_wide(node: NodeType) -> bool {
    node is LargeUtf8 || node is LargeBinary || node is LargeList || node is LargeListView
}

/// How an array below a column holds its values.
pub open spec fn node_kind(batch: Batch, column: int, path: Seq<usize>) -> NodeKind {
    kind_of(node_type(batch, column, path))
}

/// The size of an array below a column.
pub open spec fn node_size(batch: Batch, column: int, path: Seq<usize>) -> NodeSize {
    let counts = node_counts(batch, column, path);
    NodeSize {
        len: counts.len,
        bytes: counts.bytes,
        children: counts.children,
        primitive: counts.primitive,
        wide: is_wide(node_type(batch, column, path)),
    }
}

/// Whether there is an array at `path` below a column.
pub open spec fn leads_down(batch: Batch, column: int, path: Seq<usize>) -> bool {
    forall|k: int|
        0 <= k < path.len() ==> #[trigger] path[k] < node_size(batch, column, path.take(k)).children
}

/// More levels than memory has room for: no array nests deeper. The stack that Arrow
/// takes on its way down is not counted.
pub const MAX_NESTING: usize = usize::MAX;

/// The most elements, and the most bytes of text, that offsets of 32 bits reach.
pub const MAX_BELOW: usize = 0x7fff_ffff;

/// The most bytes that one element takes, but for values of a fixed size.
pub const MAX_ELEMENT: usize = 32;

/// The most bytes that Arrow may be made to set aside.
pub open spec fn max_room() -> nat {
    usize::MAX as nat / 8
}

/// `Array::to_data` on the column and `ArrayData::child_data` at each step down, then
/// the variant of `ArrayData::data_type`, with its width where it has one; of a
/// dictionary `DataType::primitive_width` and `DataType::is_signed_integer` of its keys.
#[verifier::external_body]
fn type_at(batch: &Batch, column: usize, path: &Vec<usize>) -> (node: NodeType)
    requires
        column < batch_width(*batch),
        leads_down(*batch, column as int, path@),
    ensures
        node == node_type(*batch, column as int, path@),
{
    let top = batch.table.column(column).to_data();
    match path.iter().fold(&top, |data, child| &data.child_data()[*child]).data_type() {
        Utf8 => NodeType::Utf8, LargeUtf8 => NodeType::LargeUtf8,
        Binary => NodeType::Binary, LargeBinary => NodeType::LargeBinary,
        FixedSizeBinary(width) => NodeType::FixedSizeBinary(*width),
        Struct(_) => NodeType::Struct,
        List(_) => NodeType::List, LargeList(_) => NodeType::LargeList,
        ListView(_) => NodeType::ListView, LargeListView(_) => NodeType::LargeListView,
        DataType::Map(..) => NodeType::Entries,
        FixedSizeList(_, width) => NodeType::FixedSizeList(*width),
        Dictionary(keys, _) => {
            NodeType::Dictionary(keys.primitive_width(), keys.is_signed_integer())
        },
        _ => NodeType::Other,
    }
}

/// `Array::to_data` on the column and `ArrayData::child_data` at each step down, then
/// `ArrayData::len`, `Buffer::len` of the last of its buffers, how many children there
/// are, and `DataType::is_primitive`.
#[verifier::external_body]
fn counts_at(batch: &Batch, column: usize, path: &Vec<usize>) -> (counts: NodeCounts)
    requires
        column < batch_width(*batch),
        leads_down(*batch, column as int, path@),
    ensures
        counts == node_counts(*batch, column as int, path@),
{
    let top = batch.table.column(column).to_data();
    let data = path.iter().fold(&top, |data, child| &data.child_data()[*child]);
    NodeCounts {
        len: data.len(),
        bytes: data.buffers().last().map_or(0, |buffer| buffer.len()),
        children: data.child_data().len(),
        primitive: data.data_type().is_primitive(),
    }
}

/// How an array holds its values.
fn kind_at(batch: &Batch, column: usize, path: &Vec<usize>) -> (kind: NodeKind)
    requires
        column < batch_width(*batch),
        leads_down(*batch, column as int, path@),
    ensures
        kind == node_kind(*batch, column as int, path@),
{
    match type_at(batch, column, path) {
        NodeType::Utf8 => NodeKind::Text,
        NodeType::LargeUtf8 => NodeKind::Text,
        NodeType::Binary => NodeKind::Text,
        NodeType::LargeBinary => NodeKind::Text,
        NodeType::FixedSizeBinary(width) => NodeKind::FixedSizeBinary(width),
        NodeType::Struct => NodeKind::Struct,
        NodeType::List => NodeKind::List,
        NodeType::LargeList => NodeKind::List,
        NodeType::ListView => NodeKind::ListView,
        NodeType::LargeListView => NodeKind::ListView,
        NodeType::Entries => NodeKind::Entries,
        NodeType::FixedSizeList(width) => NodeKind::FixedSizeList(width),
        NodeType::Dictionary(width, signed) => NodeKind::Dictionary(width, signed),
        NodeType::Other => NodeKind::Other,
    }
}

/// How large an array is.
fn size_at(batch: &Batch, column: usize, path: &Vec<usize>) -> (size: NodeSize)
    requires
        column < batch_width(*batch),
        leads_down(*batch, column as int, path@),
    ensures
        size == node_size(*batch, column as int, path@),
{
    let counts = counts_at(batch, column, path);
    let wide = match type_at(batch, column, path) {
        NodeType::LargeUtf8 => true,
        NodeType::LargeBinary => true,
        NodeType::LargeList => true,
        NodeType::LargeListView => true,
        _ => false,
    };
    NodeSize {
        len: counts.len,
        bytes: counts.bytes,
        children: counts.children,
        primitive: counts.primitive,
        wide,
    }
}

/// Whether the keys of a dictionary reach so many values and the end behind them.
pub open spec fn keys_reach(width: Option<usize>, signed: bool, values: nat) -> bool {
    match (width, signed) {
        (Some(1), true) => values <= 0x7f,
        (Some(1), false) => values <= 0xff,
        (Some(2), true) => values <= 0x7fff,
        (Some(2), false) => values <= 0xffff,
        (Some(4), true) => values <= 0x7fff_ffff,
        (Some(4), false) => values <= 0xffff_ffff,
        (Some(8), _) => values <= 0x7fff_ffff_ffff_ffff,
        _ => false,
    }
}

/// How many elements, or bytes, a value of a fixed size has.
pub open spec fn fixed_size(width: i32) -> nat {
    if width > 0 {
        width as nat
    } else {
        0
    }
}

/// How many bytes are set aside for each element, at most.
pub open spec fn element_room(kind: NodeKind) -> nat {
    match kind {
        NodeKind::FixedSizeBinary(width) => MAX_ELEMENT as nat + fixed_size(width),
        _ => MAX_ELEMENT as nat,
    }
}

/// For how many elements room is made below an array for which it is made for `room`.
pub open spec fn room_below(kind: NodeKind, room: nat) -> nat {
    match kind {
        NodeKind::FixedSizeList(width) => room * fixed_size(width),
        _ => room,
    }
}

/// The greater of two numbers.
pub open spec fn greater(a: nat, b: nat) -> nat {
    if a < b {
        b
    } else {
        a
    }
}

/// The length of the first array below an array; 0 where there is none.
pub open spec fn first_len(batch: Batch, column: int, path: Seq<usize>) -> nat {
    if node_size(batch, column, path).children > 0 {
        node_size(batch, column, path.push(0)).len as nat
    } else {
        0
    }
}

// ---------------------------------------------------------------------------
// Moving the rows of one batch
// ---------------------------------------------------------------------------

/// How an array is reached when rows are filtered or put into another order.
#[derive(Clone, Copy, Debug, PartialEq, Eq, Structural)]
pub enum Reached {
    /// Through structs alone: its elements are those of the rows.
    Rows,
    /// Through fixed-size lists and structs: its elements are taken by their numbers, or
    /// copied.
    Arrays,
    /// Through something else: its elements are copied.
    Copies,
}

/// How the children of an array of this kind are reached.
pub open spec fn reached_below(kind: NodeKind, reached: Reached) -> Reached {
    match kind {
        NodeKind::Struct => reached,
        NodeKind::FixedSizeList(_) => if reached == Reached::Copies {
            Reached::Copies
        } else {
            Reached::Arrays
        },
        _ => Reached::Copies,
    }
}

/// Whether the bytes of values of a fixed size are theirs alone. Arrow looks at them
/// as arrays of this size where it is one of these.
pub open spec fn whole_values(width: i32, bytes: usize) -> bool {
    (width == 2 || width == 4 || width == 8 || width == 16) ==> bytes % (width as usize) == 0
}

/// Whether the elements of an array can be moved. Lists that may overlap must not be
/// copied. Elements of fixed-size lists are numbered in 32 bits. Keys that are copied
/// must reach the end of their dictionary. Unions and run-end encoded values are left
/// out: Parquet has no such type.
pub open spec fn movable(
    kind: NodeKind,
    size: NodeSize,
    below: nat,
    reached: Reached,
    room: nat,
) -> bool {
    &&& room * element_room(kind) <= max_room()
    &&& match kind {
        NodeKind::FixedSizeBinary(width) => whole_values(width, size.bytes),
        NodeKind::ListView => reached == Reached::Rows,
        NodeKind::FixedSizeList(_) => reached == Reached::Copies || below <= MAX_BELOW,
        NodeKind::Dictionary(width, signed) => reached == Reached::Rows || keys_reach(
            width,
            signed,
            below,
        ),
        NodeKind::Other => size.children == 0,
        _ => true,
    }
}

/// Whether what is below an array is moved along with it: the values of dictionaries
/// and the elements of lists that may overlap stay where they are.
pub open spec fn moves_children(kind: NodeKind) -> bool {
    !(kind is Dictionary || kind is ListView)
}

/// Whether the elements of an array, and of all arrays below it, can be moved. Room is
/// made for at least `room` elements.
pub open spec fn node_moves(
    batch: Batch,
    column: int,
    path: Seq<usize>,
    reached: Reached,
    room: nat,
    depth: nat,
) -> bool
    decreases depth,
{
    let kind = node_kind(batch, column, path);
    let size = node_size(batch, column, path);
    let here = greater(room, size.len as nat);
    depth > 0 && movable(kind, size, first_len(batch, column, path), reached, here) && (
    moves_children(kind) ==> forall|child: usize|
        child < size.children ==> node_moves(
            batch,
            column,
            #[trigger] path.push(child),
            reached_below(kind, reached),
            room_below(kind, here),
            (depth - 1) as nat,
        ))
}

/// Whether the rows of a column can be moved.
pub open spec fn column_counted(batch: Batch, column: int) -> bool {
    node_moves(batch, column, Seq::empty(), Reached::Rows, 0, MAX_NESTING as nat)
}

/// Whether the rows of a batch can be filtered and put into another order: what is
/// below its columns can be counted.
pub open spec fn batch_counted(batch: Batch) -> bool {
    forall|column: int| 0 <= column < batch_width(batch) ==> #[trigger] column_counted(batch, column)
}

/// Whether the rows of the columns at `columns` can be moved.
pub open spec fn columns_counted(batch: Batch, columns: Seq<usize>) -> bool {
    forall|i: int| 0 <= i < columns.len() ==> column_counted(batch, #[trigger] columns[i] as int)
}

// ---------------------------------------------------------------------------
// Putting batches together
// ---------------------------------------------------------------------------

/// Whether two arrays are built alike, as far as can be seen. Arrow refuses to put
/// together what is not.
pub open spec fn alike(a: Batch, b: Batch, column: int, path: Seq<usize>) -> bool {
    &&& node_kind(a, column, path) == node_kind(b, column, path)
    &&& node_size(a, column, path).children == node_size(b, column, path).children
    &&& node_size(a, column, path).primitive == node_size(b, column, path).primitive
    &&& node_size(a, column, path).wide == node_size(b, column, path).wide
}

/// Whether an array is built alike in all batches.
pub open spec fn all_alike(batches: Seq<Batch>, column: int, path: Seq<usize>) -> bool {
    forall|i: int| 0 <= i < batches.len() ==> #[trigger] alike(batches[0], batches[i], column, path)
}

/// The length of an array in all batches together.
pub open spec fn total_len(batches: Seq<Batch>, column: int, path: Seq<usize>) -> nat
    decreases batches.len(),
{
    if batches.len() == 0 {
        0
    } else {
        total_len(batches.drop_last(), column, path) + node_size(
            batches.last(),
            column,
            path,
        ).len as nat
    }
}

/// The bytes that texts are cut from in all batches together.
pub open spec fn total_bytes(batches: Seq<Batch>, column: int, path: Seq<usize>) -> nat
    decreases batches.len(),
{
    if batches.len() == 0 {
        0
    } else {
        total_bytes(batches.drop_last(), column, path) + node_size(
            batches.last(),
            column,
            path,
        ).bytes as nat
    }
}

/// Whether texts can be put together in one buffer.
pub open spec fn texts_fit(batches: Seq<Batch>, column: int, path: Seq<usize>) -> bool {
    node_size(batches[0], column, path).wide || total_bytes(batches, column, path) <= MAX_BELOW
}

/// Whether Arrow merges dictionaries of these values where their keys do not reach all
/// of them.
pub open spec fn merges(kind: NodeKind, size: NodeSize) -> bool {
    kind is Text || size.primitive
}

/// Whether dictionaries can be put together. Those that are not copied are merged, and
/// each must be reached by its keys; others are appended to each other.
pub open spec fn dictionaries_fit(
    batches: Seq<Batch>,
    column: int,
    path: Seq<usize>,
    copied: bool,
    width: Option<usize>,
    signed: bool,
) -> bool {
    let values = path.push(0);
    let kind = node_kind(batches[0], column, values);
    if !copied && merges(kind, node_size(batches[0], column, values)) {
        &&& forall|i: int|
            0 <= i < batches.len() ==> keys_reach(
                width,
                signed,
                node_size(#[trigger] batches[i], column, values).len as nat,
            )
        &&& kind is Text ==> texts_fit(batches, column, values)
    } else {
        keys_reach(width, signed, total_len(batches, column, values))
    }
}

/// Whether arrays can be put together, as far as they themselves are concerned.
pub open spec fn node_fits(
    batches: Seq<Batch>,
    column: int,
    path: Seq<usize>,
    copied: bool,
    room: nat,
) -> bool {
    let kind = node_kind(batches[0], column, path);
    let size = node_size(batches[0], column, path);
    let total = total_len(batches, column, path);
    &&& room * element_room(kind) <= max_room()
    &&& match kind {
        NodeKind::Text => !copied || texts_fit(batches, column, path),
        NodeKind::FixedSizeBinary(width) => total * fixed_size(width) <= MAX_BELOW,
        NodeKind::Struct => true,
        NodeKind::List => size.wide || size.children == 0 || total_len(
            batches,
            column,
            path.push(0),
        ) <= MAX_BELOW,
        NodeKind::ListView => !copied && (size.wide || size.children == 0 || total_len(
            batches,
            column,
            path.push(0),
        ) <= MAX_BELOW),
        NodeKind::Entries => size.children == 0 || total_len(batches, column, path.push(0))
            <= MAX_BELOW,
        NodeKind::FixedSizeList(_) => true,
        NodeKind::Dictionary(width, signed) => size.children == 0 || dictionaries_fit(
            batches,
            column,
            path,
            copied,
            width,
            signed,
        ),
        NodeKind::Other => size.children == 0,
    }
}

/// Whether the children of an array of this kind are copied when it is put together.
pub open spec fn copied_below(kind: NodeKind, copied: bool) -> bool {
    match kind {
        NodeKind::Struct => copied,
        NodeKind::List => copied,
        NodeKind::ListView => copied,
        _ => true,
    }
}

/// For how many elements room is made below an array that is put together. For the
/// values of dictionaries it is made anew.
pub open spec fn joined_room_below(kind: NodeKind, room: nat) -> nat {
    if kind is Dictionary {
        0
    } else {
        room_below(kind, room)
    }
}

/// Whether arrays, and all that is below them, can be put together. Room is made for at
/// least `room` elements.
pub open spec fn node_joins(
    batches: Seq<Batch>,
    column: int,
    path: Seq<usize>,
    copied: bool,
    room: nat,
    depth: nat,
) -> bool
    decreases depth,
{
    let kind = node_kind(batches[0], column, path);
    let here = greater(room, total_len(batches, column, path));
    depth > 0 && (all_alike(batches, column, path) ==> node_fits(batches, column, path, copied, here)
        && forall|child: usize|
        child < node_size(batches[0], column, path).children ==> node_joins(
            batches,
            column,
            #[trigger] path.push(child),
            copied_below(kind, copied),
            joined_room_below(kind, here),
            (depth - 1) as nat,
        ))
}

/// Whether a column can be put together from all batches.
pub open spec fn column_fits(batches: Seq<Batch>, column: int) -> bool {
    node_joins(batches, column, Seq::empty(), false, 0, MAX_NESTING as nat)
}

/// Whether the rows of all batches, and what is below their columns, can be counted
/// together.
pub open spec fn fit_together(batches: Seq<Batch>) -> bool {
    rows_of(batches).len() <= usize::MAX && (batches.len() > 0 ==> forall|column: int|
        0 <= column < batch_width(batches[0]) ==> #[trigger] column_fits(batches, column))
}

// ---------------------------------------------------------------------------
// Finding out
// ---------------------------------------------------------------------------

fn do_keys_reach(width: Option<usize>, signed: bool, values: u128) -> (yes: bool)
    ensures
        yes == keys_reach(width, signed, values as nat),
{
    match (width, signed) {
        (Some(1), true) => values <= 0x7f,
        (Some(1), false) => values <= 0xff,
        (Some(2), true) => values <= 0x7fff,
        (Some(2), false) => values <= 0xffff,
        (Some(4), true) => values <= 0x7fff_ffff,
        (Some(4), false) => values <= 0xffff_ffff,
        (Some(8), _) => values <= 0x7fff_ffff_ffff_ffff,
        _ => false,
    }
}

fn size_of_fixed(width: i32) -> (size: u128)
    ensures
        size == fixed_size(width),
        size <= 0x7fff_ffff,
{
    if width > 0 {
        width as u128
    } else {
        0
    }
}

fn are_whole(width: i32, bytes: usize) -> (yes: bool)
    ensures
        yes == whole_values(width, bytes),
{
    match width {
        2 => bytes % 2 == 0,
        4 => bytes % 4 == 0,
        8 => bytes % 8 == 0,
        16 => bytes % 16 == 0,
        _ => true,
    }
}

/// An element takes at least one byte.
proof fn lemma_room_for_one(kind: NodeKind, room: nat)
    ensures
        room <= room * element_room(kind),
{
    let each = element_room(kind);
    assert(room <= room * each) by (nonlinear_arith)
        requires
            1 <= each,
    ;
}

/// Whether there is room for so many elements of this kind.
fn has_room(kind: NodeKind, room: u128) -> (yes: bool)
    ensures
        yes == (room * element_room(kind) <= max_room()),
{
    let most: u128 = (usize::MAX / 8) as u128;
    let each: u128 = match kind {
        NodeKind::FixedSizeBinary(width) => MAX_ELEMENT as u128 + size_of_fixed(width),
        _ => MAX_ELEMENT as u128,
    };
    proof {
        lemma_room_for_one(kind, room as nat);
    }
    if room > most {
        return false;
    }
    assert(room * each <= 0xffff_ffff_ffff_ffff * 0xffff_ffff) by (nonlinear_arith)
        requires
            room <= 0xffff_ffff_ffff_ffff,
            each <= 0xffff_ffff,
    ;
    room * each <= most
}

/// For how many elements room is made below an array for which there is room.
fn room_for_children(kind: NodeKind, room: u128) -> (below: u128)
    requires
        room <= max_room(),
    ensures
        below == room_below(kind, room as nat),
{
    match kind {
        NodeKind::FixedSizeList(width) => {
            let size: u128 = size_of_fixed(width);
            assert(room * size <= 0xffff_ffff_ffff_ffff * 0x7fff_ffff) by (nonlinear_arith)
                requires
                    room <= 0xffff_ffff_ffff_ffff,
                    size <= 0x7fff_ffff,
            ;
            room * size
        },
        _ => room,
    }
}

/// There is an array one step further down.
proof fn lemma_one_further(batch: Batch, column: int, path: Seq<usize>, child: usize)
    requires
        leads_down(batch, column, path),
        child < node_size(batch, column, path).children,
    ensures
        leads_down(batch, column, path.push(child)),
{
    let down = path.push(child);
    assert forall|k: int| 0 <= k < down.len() implies #[trigger] down[k] < node_size(
        batch,
        column,
        down.take(k),
    ).children by {
        assert(down.take(k) =~= path.take(k));
        if k == path.len() {
            assert(path.take(k) =~= path);
        } else {
            assert(path[k] == down[k]);
        }
    }
}

/// The path to a child.
fn step_down(path: &Vec<usize>, child: usize) -> (down: Vec<usize>)
    ensures
        down@ == path@.push(child),
{
    let mut down: Vec<usize> = path.clone();
    down.push(child);
    assert(down@ =~= path@.push(child));
    down
}

fn is_movable(
    kind: NodeKind,
    size: NodeSize,
    below: usize,
    reached: Reached,
    room: u128,
) -> (yes: bool)
    ensures
        yes == movable(kind, size, below as nat, reached, room as nat),
{
    if !has_room(kind, room) {
        return false;
    }
    match kind {
        NodeKind::FixedSizeBinary(width) => are_whole(width, size.bytes),
        NodeKind::ListView => reached == Reached::Rows,
        NodeKind::FixedSizeList(_) => reached == Reached::Copies || below <= MAX_BELOW,
        NodeKind::Dictionary(width, signed) => reached == Reached::Rows || do_keys_reach(
            width,
            signed,
            below as u128,
        ),
        NodeKind::Other => size.children == 0,
        _ => true,
    }
}

fn below(kind: NodeKind, reached: Reached) -> (children: Reached)
    ensures
        children == reached_below(kind, reached),
{
    match kind {
        NodeKind::Struct => reached,
        NodeKind::FixedSizeList(_) => if reached == Reached::Copies {
            Reached::Copies
        } else {
            Reached::Arrays
        },
        _ => Reached::Copies,
    }
}

/// Whether the elements of an array, and of all arrays below it, can be moved.
fn does_node_move(
    batch: &Batch,
    column: usize,
    path: &Vec<usize>,
    reached: Reached,
    room: u128,
    depth: usize,
) -> (yes: bool)
    requires
        column < batch_width(*batch),
        leads_down(*batch, column as int, path@),
    ensures
        yes == node_moves(*batch, column as int, path@, reached, room as nat, depth as nat),
    decreases depth,
{
    if depth == 0 {
        return false;
    }
    let ghost top = column as int;
    let kind = kind_at(batch, column, path);
    let size = size_at(batch, column, path);
    let here: u128 = if room < size.len as u128 {
        size.len as u128
    } else {
        room
    };
    let first: usize = if size.children > 0 {
        let down = step_down(path, 0);
        proof {
            lemma_one_further(*batch, top, path@, 0);
        }
        size_at(batch, column, &down).len
    } else {
        0
    };
    if !is_movable(kind, size, first, reached, here) {
        return false;
    }
    match kind {
        NodeKind::Dictionary(_, _) => return true,
        NodeKind::ListView => return true,
        _ => {},
    }
    proof {
        lemma_room_for_one(kind, here as nat);
    }
    let room_there: u128 = room_for_children(kind, here);
    let reached_there = below(kind, reached);
    let mut child: usize = 0;
    while child < size.children
        invariant
            column < batch_width(*batch),
            leads_down(*batch, column as int, path@),
            top == column,
            kind == node_kind(*batch, top, path@),
            size == node_size(*batch, top, path@),
            here == greater(room as nat, size.len as nat),
            room_there == room_below(kind, here as nat),
            reached_there == reached_below(kind, reached),
            moves_children(kind),
            0 < depth,
            child <= size.children,
            forall|k: usize|
                k < child ==> node_moves(
                    *batch,
                    top,
                    #[trigger] path@.push(k),
                    reached_there,
                    room_there as nat,
                    (depth - 1) as nat,
                ),
        decreases size.children - child,
    {
        let down = step_down(path, child);
        proof {
            lemma_one_further(*batch, top, path@, child);
        }
        if !does_node_move(batch, column, &down, reached_there, room_there, depth - 1) {
            return false;
        }
        child = child + 1;
    }
    true
}

/// Whether the rows of a column can be moved.
fn counts_column(batch: &Batch, column: usize) -> (yes: bool)
    requires
        column < batch_width(*batch),
    ensures
        yes == column_counted(*batch, column as int),
{
    let top: Vec<usize> = Vec::new();
    assert(top@ =~= Seq::<usize>::empty());
    does_node_move(batch, column, &top, Reached::Rows, 0, MAX_NESTING)
}

/// Whether the rows of a batch can be filtered and put into another order.
pub fn can_count(batch: &Batch) -> (yes: bool)
    ensures
        yes == batch_counted(*batch),
{
    let columns: usize = column_count(batch);
    let mut column: usize = 0;
    while column < columns
        invariant
            column <= columns,
            columns == batch_width(*batch),
            forall|k: int| 0 <= k < column ==> #[trigger] column_counted(*batch, k),
        decreases columns - column,
    {
        if !counts_column(batch, column) {
            assert(!column_counted(*batch, column as int));
            return false;
        }
        column = column + 1;
    }
    true
}

/// Whether the rows of the columns at `columns` can be moved.
pub fn can_count_columns(batch: &Batch, columns: &Vec<usize>) -> (yes: bool)
    requires
        forall|i: int| 0 <= i < columns@.len() ==> #[trigger] columns@[i] < batch_width(*batch),
    ensures
        yes == columns_counted(*batch, columns@),
{
    let mut i: usize = 0;
    while i < columns.len()
        invariant
            i <= columns@.len(),
            forall|k: int|
                0 <= k < columns@.len() ==> #[trigger] columns@[k] < batch_width(*batch),
            forall|k: int| 0 <= k < i ==> column_counted(*batch, #[trigger] columns@[k] as int),
        decreases columns@.len() - i,
    {
        if !counts_column(batch, columns[i]) {
            assert(!columns_counted(*batch, columns@));
            return false;
        }
        i = i + 1;
    }
    true
}

/// What holds of an array holds of one that is built in the same way.
proof fn lemma_same_arrays_move(
    a: Batch,
    at: int,
    b: Batch,
    bt: int,
    path: Seq<usize>,
    reached: Reached,
    room: nat,
    depth: nat,
)
    requires
        forall|path: Seq<usize>| #[trigger] node_type(a, at, path) == node_type(b, bt, path),
        forall|path: Seq<usize>| #[trigger] node_counts(a, at, path) == node_counts(b, bt, path),
    ensures
        node_moves(a, at, path, reached, room, depth) == node_moves(
            b,
            bt,
            path,
            reached,
            room,
            depth,
        ),
    decreases depth,
{
    if depth > 0 {
        let kind = node_kind(a, at, path);
        let size = node_size(a, at, path);
        let here = greater(room, size.len as nat);
        assert(kind == node_kind(b, bt, path));
        assert(size == node_size(b, bt, path));
        assert(node_size(a, at, path.push(0)) == node_size(b, bt, path.push(0)));
        let there = reached_below(kind, reached);
        let more = room_below(kind, here);
        let less = (depth - 1) as nat;
        assert forall|child: usize| child < size.children implies node_moves(
            a,
            at,
            #[trigger] path.push(child),
            there,
            more,
            less,
        ) == node_moves(b, bt, path.push(child), there, more, less) by {
            lemma_same_arrays_move(a, at, b, bt, path.push(child), there, more, less);
        }
    }
}

/// A batch of columns whose rows can be moved has rows that can be moved.
pub proof fn lemma_part_fits(batch: Batch, columns: Seq<usize>, part: Batch)
    requires
        columns_counted(batch, columns),
        batch_width(part) == columns.len(),
        forall|i: int, path: Seq<usize>|
            0 <= i < columns.len() ==> #[trigger] node_type(part, i, path) == node_type(
                batch,
                columns[i] as int,
                path,
            ),
        forall|i: int, path: Seq<usize>|
            0 <= i < columns.len() ==> #[trigger] node_counts(part, i, path) == node_counts(
                batch,
                columns[i] as int,
                path,
            ),
    ensures
        batch_counted(part),
{
    assert forall|column: int| 0 <= column < batch_width(part) implies #[trigger] column_counted(
        part,
        column,
    ) by {
        assert(column_counted(batch, columns[column] as int));
        lemma_same_arrays_move(
            part,
            column,
            batch,
            columns[column] as int,
            Seq::empty(),
            Reached::Rows,
            0,
            MAX_NESTING as nat,
        );
    }
}

/// Whether there is an array at `path` in all batches.
pub open spec fn all_lead_down(batches: Seq<Batch>, column: int, path: Seq<usize>) -> bool {
    forall|i: int|
        0 <= i < batches.len() ==> column < batch_width(#[trigger] batches[i]) && leads_down(
            batches[i],
            column,
            path,
        )
}

/// The lengths, and the bytes, of an array in all batches together, and whether it is
/// built alike in all of them.
struct Totals {
    pub len: u128,
    pub bytes: u128,
    pub alike: bool,
}

/// Adds up the sizes of an array in all batches.
fn totals_at(batches: &Vec<Batch>, column: usize, path: &Vec<usize>) -> (totals: Totals)
    requires
        batches@.len() > 0,
        all_lead_down(batches@, column as int, path@),
    ensures
        totals.len == total_len(batches@, column as int, path@),
        totals.bytes == total_bytes(batches@, column as int, path@),
        totals.alike == all_alike(batches@, column as int, path@),
{
    let ghost top = column as int;
    let kind = kind_at(&batches[0], column, path);
    let size = size_at(&batches[0], column, path);
    let mut len: u128 = 0;
    let mut bytes: u128 = 0;
    let mut alike_all: bool = true;
    let mut i: usize = 0;
    assert(batches@.take(0) =~= Seq::<Batch>::empty());
    while i < batches.len()
        invariant
            top == column,
            i <= batches@.len(),
            batches@.len() > 0,
            all_lead_down(batches@, column as int, path@),
            kind == node_kind(batches@[0], top, path@),
            size == node_size(batches@[0], top, path@),
            len == total_len(batches@.take(i as int), top, path@),
            bytes == total_bytes(batches@.take(i as int), top, path@),
            len <= i * 0xffff_ffff_ffff_ffff,
            bytes <= i * 0xffff_ffff_ffff_ffff,
            alike_all == forall|k: int|
                0 <= k < i ==> #[trigger] alike(batches@[0], batches@[k], top, path@),
        decreases batches@.len() - i,
    {
        proof {
            let next = batches@.take(i + 1);
            assert(next.drop_last() =~= batches@.take(i as int));
            assert(next.last() == batches@[i as int]);
            assert((i + 1) * 0xffff_ffff_ffff_ffff == i * 0xffff_ffff_ffff_ffff
                + 0xffff_ffff_ffff_ffff);
            assert(column < batch_width(batches@[i as int]));
        }
        let other_kind = kind_at(&batches[i], column, path);
        let other = size_at(&batches[i], column, path);
        len = len + other.len as u128;
        bytes = bytes + other.bytes as u128;
        let same = other_kind == kind && other.children == size.children && other.primitive
            == size.primitive && other.wide == size.wide;
        assert(same == alike(batches@[0], batches@[i as int], top, path@));
        alike_all = alike_all && same;
        i = i + 1;
    }
    assert(batches@.take(i as int) =~= batches@);
    Totals { len, bytes, alike: alike_all }
}

/// There is an array one step further down in all batches.
proof fn lemma_all_one_further(batches: Seq<Batch>, column: int, path: Seq<usize>, child: usize)
    requires
        batches.len() > 0,
        all_lead_down(batches, column, path),
        all_alike(batches, column, path),
        child < node_size(batches[0], column, path).children,
    ensures
        all_lead_down(batches, column, path.push(child)),
{
    assert forall|i: int| 0 <= i < batches.len() implies column < batch_width(
        #[trigger] batches[i],
    ) && leads_down(batches[i], column, path.push(child)) by {
        assert(alike(batches[0], batches[i], column, path));
        lemma_one_further(batches[i], column, path, child);
    }
}

/// Whether the keys of each dictionary reach its own values.
fn keys_reach_each(
    batches: &Vec<Batch>,
    column: usize,
    values: &Vec<usize>,
    width: Option<usize>,
    signed: bool,
) -> (yes: bool)
    requires
        all_lead_down(batches@, column as int, values@),
    ensures
        yes == forall|i: int|
            0 <= i < batches@.len() ==> keys_reach(
                width,
                signed,
                node_size(#[trigger] batches@[i], column as int, values@).len as nat,
            ),
{
    let mut i: usize = 0;
    while i < batches.len()
        invariant
            i <= batches@.len(),
            all_lead_down(batches@, column as int, values@),
            forall|k: int|
                0 <= k < i ==> keys_reach(
                    width,
                    signed,
                    node_size(#[trigger] batches@[k], column as int, values@).len as nat,
                ),
        decreases batches@.len() - i,
    {
        let size = size_at(&batches[i], column, values);
        if !do_keys_reach(width, signed, size.len as u128) {
            assert(!keys_reach(
                width,
                signed,
                node_size(batches@[i as int], column as int, values@).len as nat,
            ));
            return false;
        }
        i = i + 1;
    }
    true
}

/// Whether dictionaries can be put together.
fn do_dictionaries_fit(
    batches: &Vec<Batch>,
    column: usize,
    path: &Vec<usize>,
    copied: bool,
    width: Option<usize>,
    signed: bool,
) -> (yes: bool)
    requires
        batches@.len() > 0,
        all_lead_down(batches@, column as int, path@.push(0)),
    ensures
        yes == dictionaries_fit(batches@, column as int, path@, copied, width, signed),
{
    let values = step_down(path, 0);
    let kind = kind_at(&batches[0], column, &values);
    let size = size_at(&batches[0], column, &values);
    let totals = totals_at(batches, column, &values);
    let text = match kind {
        NodeKind::Text => true,
        _ => false,
    };
    if !copied && (text || size.primitive) {
        keys_reach_each(batches, column, &values, width, signed) && (!text || size.wide
            || totals.bytes <= MAX_BELOW as u128)
    } else {
        do_keys_reach(width, signed, totals.len)
    }
}

/// Whether arrays that are built alike can be put together, as far as they themselves
/// are concerned.
fn does_node_fit(
    batches: &Vec<Batch>,
    column: usize,
    path: &Vec<usize>,
    totals: &Totals,
    copied: bool,
    room: u128,
) -> (yes: bool)
    requires
        batches@.len() > 0,
        all_lead_down(batches@, column as int, path@),
        all_alike(batches@, column as int, path@),
        totals.len == total_len(batches@, column as int, path@),
        totals.bytes == total_bytes(batches@, column as int, path@),
        totals.len <= room,
    ensures
        yes == node_fits(batches@, column as int, path@, copied, room as nat),
{
    let ghost top = column as int;
    let kind = kind_at(&batches[0], column, path);
    let size = size_at(&batches[0], column, path);
    if !has_room(kind, room) {
        return false;
    }
    proof {
        lemma_room_for_one(kind, room as nat);
    }
    let children: u128 = if size.children > 0 {
        proof {
            lemma_all_one_further(batches@, top, path@, 0);
        }
        let down = step_down(path, 0);
        totals_at(batches, column, &down).len
    } else {
        0
    };
    match kind {
        NodeKind::Text => !copied || size.wide || totals.bytes <= MAX_BELOW as u128,
        NodeKind::FixedSizeBinary(width) => {
            let each: u128 = size_of_fixed(width);
            let length: u128 = totals.len;
            assert(length * each <= 0xffff_ffff_ffff_ffff * 0x7fff_ffff) by (nonlinear_arith)
                requires
                    length <= 0xffff_ffff_ffff_ffff,
                    each <= 0x7fff_ffff,
            ;
            length * each <= MAX_BELOW as u128
        },
        NodeKind::Struct => true,
        NodeKind::List => size.wide || children <= MAX_BELOW as u128,
        NodeKind::ListView => !copied && (size.wide || children <= MAX_BELOW as u128),
        NodeKind::Entries => children <= MAX_BELOW as u128,
        NodeKind::FixedSizeList(_) => true,
        NodeKind::Dictionary(width, signed) => size.children == 0 || do_dictionaries_fit(
            batches,
            column,
            path,
            copied,
            width,
            signed,
        ),
        NodeKind::Other => size.children == 0,
    }
}

/// Whether arrays, and all that is below them, can be put together.
fn does_node_join(
    batches: &Vec<Batch>,
    column: usize,
    path: &Vec<usize>,
    copied: bool,
    room: u128,
    depth: usize,
) -> (yes: bool)
    requires
        batches@.len() > 0,
        all_lead_down(batches@, column as int, path@),
    ensures
        yes == node_joins(batches@, column as int, path@, copied, room as nat, depth as nat),
    decreases depth,
{
    if depth == 0 {
        return false;
    }
    let ghost top = column as int;
    let totals = totals_at(batches, column, path);
    if !totals.alike {
        return true;
    }
    let kind = kind_at(&batches[0], column, path);
    let size = size_at(&batches[0], column, path);
    let here: u128 = if room < totals.len {
        totals.len
    } else {
        room
    };
    if !does_node_fit(batches, column, path, &totals, copied, here) {
        return false;
    }
    let copied_there: bool = match kind {
        NodeKind::Struct => copied,
        NodeKind::List => copied,
        NodeKind::ListView => copied,
        _ => true,
    };
    proof {
        lemma_room_for_one(kind, here as nat);
    }
    let room_there: u128 = match kind {
        NodeKind::Dictionary(_, _) => 0,
        _ => room_for_children(kind, here),
    };
    let mut child: usize = 0;
    while child < size.children
        invariant
            batches@.len() > 0,
            all_lead_down(batches@, column as int, path@),
            all_alike(batches@, top, path@),
            top == column,
            kind == node_kind(batches@[0], top, path@),
            size == node_size(batches@[0], top, path@),
            here == greater(room as nat, total_len(batches@, top, path@)),
            room_there == joined_room_below(kind, here as nat),
            copied_there == copied_below(kind, copied),
            0 < depth,
            child <= size.children,
            forall|k: usize|
                k < child ==> node_joins(
                    batches@,
                    top,
                    #[trigger] path@.push(k),
                    copied_there,
                    room_there as nat,
                    (depth - 1) as nat,
                ),
        decreases size.children - child,
    {
        let down = step_down(path, child);
        proof {
            lemma_all_one_further(batches@, top, path@, child);
        }
        if !does_node_join(batches, column, &down, copied_there, room_there, depth - 1) {
            return false;
        }
        child = child + 1;
    }
    true
}

/// Whether a column can be put together from all batches.
fn fits(batches: &Vec<Batch>, column: usize) -> (yes: bool)
    requires
        batches@.len() > 0,
        forall|i: int| 0 <= i < batches@.len() ==> column < batch_width(#[trigger] batches@[i]),
    ensures
        yes == column_fits(batches@, column as int),
{
    let top: Vec<usize> = Vec::new();
    assert(top@ =~= Seq::<usize>::empty());
    does_node_join(batches, column, &top, false, 0, MAX_NESTING)
}

/// Fewer batches have no more rows.
proof fn lemma_more_batches_more_rows(batches: Seq<Batch>, few: int)
    requires
        0 <= few <= batches.len(),
    ensures
        rows_of(batches.take(few)).len() <= rows_of(batches).len(),
    decreases batches.len(),
{
    if few == batches.len() {
        assert(batches.take(few) =~= batches);
    } else {
        lemma_more_batches_more_rows(batches.drop_last(), few);
        assert(batches.drop_last().take(few) =~= batches.take(few));
    }
}

fn rows_fit(batches: &Vec<Batch>) -> (yes: bool)
    ensures
        yes == (rows_of(batches@).len() <= usize::MAX),
{
    let mut rows: usize = 0;
    let mut i: usize = 0;
    assert(batches@.take(0) =~= Seq::<Batch>::empty());
    while i < batches.len()
        invariant
            i <= batches@.len(),
            rows_of(batches@.take(i as int)).len() == rows,
        decreases batches@.len() - i,
    {
        proof {
            let next = batches@.take(i + 1);
            assert(next.drop_last() =~= batches@.take(i as int));
            assert(next.last() == batches@[i as int]);
            lemma_more_batches_more_rows(batches@, i + 1);
        }
        match rows.checked_add(row_count(&batches[i])) {
            Some(sum) => {
                rows = sum;
            },
            None => return false,
        }
        i = i + 1;
    }
    assert(batches@.take(i as int) =~= batches@);
    true
}

/// Whether the rows of all batches, and what is below their columns, can be counted.
pub fn can_fit_together(batches: &Vec<Batch>) -> (yes: bool)
    requires
        forall|i: int|
            0 <= i < batches@.len() ==> batch_width(#[trigger] batches@[i]) == batch_width(
                batches@[0],
            ),
    ensures
        yes == fit_together(batches@),
{
    if !rows_fit(batches) {
        return false;
    }
    if batches.len() == 0 {
        return true;
    }
    let columns: usize = column_count(&batches[0]);
    let mut column: usize = 0;
    while column < columns
        invariant
            column <= columns,
            batches@.len() > 0,
            columns == batch_width(batches@[0]),
            forall|i: int|
                0 <= i < batches@.len() ==> batch_width(#[trigger] batches@[i]) == batch_width(
                    batches@[0],
                ),
            rows_of(batches@).len() <= usize::MAX,
            forall|k: int| 0 <= k < column ==> #[trigger] column_fits(batches@, k),
        decreases columns - column,
    {
        if !fits(batches, column) {
            assert(!column_fits(batches@, column as int));
            return false;
        }
        column = column + 1;
    }
    true
}

} // verus!
