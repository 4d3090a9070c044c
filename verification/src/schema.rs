//! Column types and schemas, as plain values.

use crate::seqs::{first_index, lemma_first_index, lemma_first_index_is};
use vstd::prelude::*;

verus! {

/// The unit of a timestamp.
#[derive(Clone, Copy, Debug, PartialEq, Eq, Structural)]
pub enum TimeUnit {
    Second,
    Millisecond,
    Microsecond,
    Nanosecond,
}

/// The type of a column. Nested types keep their shape in the children of the
/// [`Field`] that has them.
#[derive(Clone, Copy, Debug, PartialEq, Eq, Structural)]
pub enum DataType {
    Boolean,
    Int8,
    Int16,
    Int32,
    Int64,
    UInt8,
    UInt16,
    UInt32,
    UInt64,
    Float16,
    Float32,
    Float64,
    Utf8,
    LargeUtf8,
    Utf8View,
    Binary,
    LargeBinary,
    Date32,
    Date64,
    /// A timestamp; `zoned` says whether the column names a time zone.
    Timestamp { unit: TimeUnit, zoned: bool },
    List,
    LargeList,
    FixedSizeList,
    Struct,
    Mapping,
    /// Any type that the explorer shows by name only.
    Other,
}

/// A named column, or a named part of a nested one.
#[derive(Debug)]
pub struct Field {
    pub name: String,
    pub data_type: DataType,
    /// The full name of the type, for messages.
    pub type_text: String,
    pub nullable: bool,
    /// The parts of a nested type: the item of a list, the fields of a
    /// structure, the entries of a map.
    pub children: Vec<Field>,
}

/// The top-level columns of a dataset, in order.
#[derive(Debug)]
pub struct Schema {
    pub fields: Vec<Field>,
}

/// The names of the top-level columns.
pub open spec fn field_names(fields: Seq<Field>) -> Seq<Seq<char>> {
    fields.map_values(|field: Field| field.name@)
}

impl DataType {
    pub open spec fn signed(self) -> bool {
        self == DataType::Int8 || self == DataType::Int16 || self == DataType::Int32 || self
            == DataType::Int64
    }

    pub open spec fn unsigned(self) -> bool {
        self == DataType::UInt8 || self == DataType::UInt16 || self == DataType::UInt32 || self
            == DataType::UInt64
    }

    pub open spec fn floating(self) -> bool {
        self == DataType::Float32 || self == DataType::Float64
    }

    /// The types that `SUM` and `AVG` accept.
    pub open spec fn numeric(self) -> bool {
        self.signed() || self.unsigned() || self.floating()
    }

    /// The types that `MIN`, `MAX` and `GROUP BY` accept.
    pub open spec fn comparable(self) -> bool {
        self.numeric() || self == DataType::Boolean || self == DataType::Utf8 || self
            == DataType::Date32 || self == DataType::Date64 || (self matches DataType::Timestamp {
            zoned: false,
            ..
        })
    }

    /// The types that a sort key may have.
    pub open spec fn sortable(self) -> bool {
        self.numeric() || self == DataType::Boolean || self == DataType::Utf8 || self
            == DataType::LargeUtf8 || self == DataType::Date32 || self == DataType::Date64
            || self is Timestamp
    }

    /// The types that a filter compares as numbers.
    pub open spec fn filters_as_number(self) -> bool {
        self.numeric()
    }

    /// The types that a filter compares as text.
    pub open spec fn filters_as_text(self) -> bool {
        self == DataType::Utf8 || self == DataType::LargeUtf8
    }

    pub fn is_signed(self) -> (yes: bool)
        ensures
            yes == self.signed(),
    {
        matches!(self, DataType::Int8 | DataType::Int16 | DataType::Int32 | DataType::Int64)
    }

    pub fn is_unsigned(self) -> (yes: bool)
        ensures
            yes == self.unsigned(),
    {
        matches!(self, DataType::UInt8 | DataType::UInt16 | DataType::UInt32 | DataType::UInt64)
    }

    pub fn is_floating(self) -> (yes: bool)
        ensures
            yes == self.floating(),
    {
        matches!(self, DataType::Float32 | DataType::Float64)
    }

    pub fn supports_numeric(self) -> (yes: bool)
        ensures
            yes == self.numeric(),
    {
        self.is_signed() || self.is_unsigned() || self.is_floating()
    }

    pub fn supports_min_max(self) -> (yes: bool)
        ensures
            yes == self.comparable(),
    {
        self.supports_numeric() || matches!(
            self,
            DataType::Boolean | DataType::Utf8 | DataType::Date32 | DataType::Date64
                | DataType::Timestamp { zoned: false, .. }
        )
    }

    pub fn supports_grouping(self) -> (yes: bool)
        ensures
            yes == self.comparable(),
    {
        self.supports_min_max()
    }

    pub fn supports_sorting(self) -> (yes: bool)
        ensures
            yes == self.sortable(),
    {
        self.supports_numeric() || matches!(
            self,
            DataType::Boolean | DataType::Utf8 | DataType::LargeUtf8 | DataType::Date32
                | DataType::Date64 | DataType::Timestamp { .. }
        )
    }
}

impl Schema {
    pub open spec fn names(&self) -> Seq<Seq<char>> {
        field_names(self.fields@)
    }
}

/// The index of the first column with this name.
pub fn find_column(fields: &Vec<Field>, name: &str) -> (found: Option<usize>)
    ensures
        match found {
            Some(index) => first_index(field_names(fields@), name@) == Some(index as int) && index
                < fields@.len(),
            None => first_index(field_names(fields@), name@) is None,
        },
{
    let ghost names = field_names(fields@);
    let mut index: usize = 0;
    while index < fields.len()
        invariant
            index <= fields@.len(),
            names == field_names(fields@),
            forall|k: int| 0 <= k < index ==> names[k] != name@,
        decreases fields@.len() - index,
    {
        if crate::text::same_text(fields[index].name.as_str(), name) {
            proof {
                lemma_first_index_is(names, name@, index as int);
            }
            return Some(index);
        }
        index = index + 1;
    }
    proof {
        lemma_first_index(names, name@);
    }
    None
}

/// What can be added up can be compared, and what can be compared can be sorted by; beside
/// that only long texts and points in time with a zone can.
pub proof fn law_types_allow_what_follows(data_type: DataType)
    ensures
        data_type.numeric() ==> data_type.comparable(),
        data_type.comparable() ==> data_type.sortable(),
        data_type.sortable() && !data_type.comparable() ==> data_type is LargeUtf8
            || data_type is Timestamp,
        data_type.comparable() && !data_type.numeric() ==> data_type is Boolean || data_type is Utf8
            || data_type is Date32 || data_type is Date64 || data_type is Timestamp,
        data_type is Boolean || data_type is Utf8 || data_type is Date32 || data_type is Date64
            ==> data_type.comparable(),
        data_type is LargeUtf8 || data_type is Timestamp ==> data_type.sortable(),
        data_type.filters_as_number() <==> data_type.numeric(),
        !(data_type.signed() && data_type.unsigned()) && !(data_type.signed()
            && data_type.floating()) && !(data_type.unsigned() && data_type.floating()),
{
}

} // verus!
