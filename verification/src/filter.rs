//! Filter expressions: one column, one operator, one value.

use crate::schema::{find_column, DataType, Field, Schema};
use crate::seqs::{first_index, lemma_first_index};
use crate::text::{
    cat, cat3, chars_of, compare_text, contains, contains_text, decimal, decimal_text, enclosed_by,
    find, is_number, law_parse_inverts_decimal, parse_usize, parsed_unsigned, same_text, split_once,
    text_before, text_of, trim, trimmed, utf8_text, writes_number, Comparison,
};
use vstd::prelude::*;
use vstd::utf8::{decode_utf8, valid_utf8};

verus! {

/// How a row is compared with the value of a filter.
#[derive(Clone, Copy, Debug, PartialEq, Eq, Structural)]
pub enum FilterOp {
    Eq,
    Ne,
    Contains,
    Gt,
    Ge,
    Lt,
    Le,
}

/// A filter on one column.
#[derive(Debug, PartialEq, Eq)]
pub struct FilterExpr {
    pub column: String,
    pub op: FilterOp,
    pub value: String,
}

/// What a filter says, as mathematical values.
pub struct FilterModel {
    pub column: Seq<char>,
    pub op: FilterOp,
    pub value: Seq<char>,
}

impl View for FilterExpr {
    type V = FilterModel;

    open spec fn view(&self) -> FilterModel {
        FilterModel { column: self.column@, op: self.op, value: self.value@ }
    }
}

/// Why a filter cannot be parsed or applied.
#[derive(Debug, PartialEq, Eq)]
pub enum FilterError {
    Empty,
    Unsupported(String),
    IndexOutOfRange(usize),
    UnknownColumn(String),
    NotABoolean(String),
    NotANumber(String),
    ContainsOnNumbers,
    OrderOnBooleans,
    UnsupportedType(String),
}

/// What a filter error says, as mathematical values.
pub enum FilterErrorModel {
    Empty,
    Unsupported(Seq<char>),
    IndexOutOfRange(usize),
    UnknownColumn(Seq<char>),
    NotABoolean(Seq<char>),
    NotANumber(Seq<char>),
    ContainsOnNumbers,
    OrderOnBooleans,
    UnsupportedType(Seq<char>),
}

impl View for FilterError {
    type V = FilterErrorModel;

    open spec fn view(&self) -> FilterErrorModel {
        match self {
            FilterError::Empty => FilterErrorModel::Empty,
            FilterError::Unsupported(input) => FilterErrorModel::Unsupported(input@),
            FilterError::IndexOutOfRange(index) => FilterErrorModel::IndexOutOfRange(*index),
            FilterError::UnknownColumn(name) => FilterErrorModel::UnknownColumn(name@),
            FilterError::NotABoolean(value) => FilterErrorModel::NotABoolean(value@),
            FilterError::NotANumber(value) => FilterErrorModel::NotANumber(value@),
            FilterError::ContainsOnNumbers => FilterErrorModel::ContainsOnNumbers,
            FilterError::OrderOnBooleans => FilterErrorModel::OrderOnBooleans,
            FilterError::UnsupportedType(name) => FilterErrorModel::UnsupportedType(name@),
        }
    }
}

impl FilterError {
    /// The message that the user sees.
    pub open spec fn message_text(self) -> Seq<char> {
        match self {
            FilterError::Empty => "filter expression is empty"@,
            FilterError::Unsupported(input) => "unsupported filter expression: "@ + input@,
            FilterError::IndexOutOfRange(index) => "filter column index "@ + decimal(index as nat)
                + " out of range"@,
            FilterError::UnknownColumn(name) => "unknown filter column '"@ + name@ + "'"@,
            FilterError::NotABoolean(value) => "'"@ + value@ + "' is not a boolean"@,
            FilterError::NotANumber(value) => "'"@ + value@ + "' is not a number"@,
            FilterError::ContainsOnNumbers => "contains is only supported for UTF-8 columns"@,
            FilterError::OrderOnBooleans => "boolean columns support only == and !="@,
            FilterError::UnsupportedType(name) => "filtering is not supported for "@ + name@
                + " columns"@,
        }
    }

    /// The message that the user sees.
    pub fn message(&self) -> (text: String)
        ensures
            text@ == self.message_text(),
    {
        match self {
            FilterError::Empty => "filter expression is empty".to_owned(),
            FilterError::Unsupported(input) => cat(
                "unsupported filter expression: ",
                input.as_str(),
            ),
            FilterError::IndexOutOfRange(index) => cat3(
                "filter column index ",
                decimal_text(*index as u64).as_str(),
                " out of range",
            ),
            FilterError::UnknownColumn(name) => cat3("unknown filter column '", name.as_str(), "'"),
            FilterError::NotABoolean(value) => cat3("'", value.as_str(), "' is not a boolean"),
            FilterError::NotANumber(value) => cat3("'", value.as_str(), "' is not a number"),
            FilterError::ContainsOnNumbers =>
                "contains is only supported for UTF-8 columns".to_owned(),
            FilterError::OrderOnBooleans => "boolean columns support only == and !=".to_owned(),
            FilterError::UnsupportedType(name) => cat3(
                "filtering is not supported for ",
                name.as_str(),
                " columns",
            ),
        }
    }
}

// ---------------------------------------------------------------------------
// Parsing
// ---------------------------------------------------------------------------

/// `value` without the pair of double or single quotes around it, if there is one.
pub open spec fn unquoted(value: Seq<char>) -> Seq<char> {
    if enclosed_by(value, '"') || enclosed_by(value, '\'') {
        value.subrange(1, value.len() - 1)
    } else {
        value
    }
}

/// The filter that stands around the first `operator` in `input`.
pub open spec fn filter_around(input: Seq<char>, operator: Seq<char>, op: FilterOp) -> Option<
    FilterModel,
> {
    match split_once(input, operator) {
        Some((column, value)) => Some(
            FilterModel { column: trimmed(column), op, value: unquoted(trimmed(value)) },
        ),
        None => None,
    }
}

/// What `input` says as a filter: the first operator of this list that occurs
/// splits it.
pub open spec fn parsed_filter(input: Seq<char>) -> Result<FilterModel, FilterErrorModel> {
    let s = trimmed(input);
    if s.len() == 0 {
        Err(FilterErrorModel::Empty)
    } else if let Some(filter) = filter_around(s, " contains "@, FilterOp::Contains) {
        Ok(filter)
    } else if let Some(filter) = filter_around(s, "=="@, FilterOp::Eq) {
        Ok(filter)
    } else if let Some(filter) = filter_around(s, "!="@, FilterOp::Ne) {
        Ok(filter)
    } else if let Some(filter) = filter_around(s, ">="@, FilterOp::Ge) {
        Ok(filter)
    } else if let Some(filter) = filter_around(s, "<="@, FilterOp::Le) {
        Ok(filter)
    } else if let Some(filter) = filter_around(s, ">"@, FilterOp::Gt) {
        Ok(filter)
    } else if let Some(filter) = filter_around(s, "<"@, FilterOp::Lt) {
        Ok(filter)
    } else {
        Err(FilterErrorModel::Unsupported(s))
    }
}

fn unquote(value: &str) -> (text: String)
    ensures
        text@ == unquoted(value@),
{
    let chars = chars_of(value);
    let n: usize = chars.len();
    if n >= 2 && ((chars[0] == '"' && chars[n - 1] == '"') || (chars[0] == '\'' && chars[n - 1]
        == '\'')) {
        text_of(&chars, 1, n - 1)
    } else {
        value.to_owned()
    }
}

fn split_at_operator(input: &str, operator: &str, op: FilterOp) -> (filter: Option<FilterExpr>)
    ensures
        match filter {
            Some(parsed) => filter_around(input@, operator@, op) == Some(parsed@),
            None => filter_around(input@, operator@, op) is None,
        },
{
    let chars = chars_of(input);
    let needle = chars_of(operator);
    match find(&chars, &needle) {
        Some(at) => {
            let column = text_of(&chars, 0, at);
            let value = text_of(&chars, at + needle.len(), chars.len());
            Some(
                FilterExpr {
                    column: trim(column.as_str()),
                    op,
                    value: unquote(trim(value.as_str()).as_str()),
                },
            )
        },
        None => None,
    }
}

/// The column that a filter names: an index, or else a name.
pub open spec fn named_column(column: Seq<char>, names: Seq<Seq<char>>) -> Result<
    int,
    FilterErrorModel,
> {
    match parsed_unsigned(column, usize::MAX as nat) {
        Some(index) => if index < names.len() {
            Ok(index as int)
        } else {
            Err(FilterErrorModel::IndexOutOfRange(index as usize))
        },
        None => match first_index(names, column) {
            Some(index) => Ok(index),
            None => Err(FilterErrorModel::UnknownColumn(column)),
        },
    }
}

/// The truth value that `value` writes.
pub open spec fn parsed_bool(value: Seq<char>) -> Option<bool> {
    if value == "true"@ {
        Some(true)
    } else if value == "false"@ {
        Some(false)
    } else {
        None
    }
}

/// The truth value that `value` writes.
pub fn parse_bool(value: &str) -> (parsed: Option<bool>)
    ensures
        parsed == parsed_bool(value@),
{
    if same_text(value, "true") {
        Some(true)
    } else if same_text(value, "false") {
        Some(false)
    } else {
        None
    }
}

/// What keeps a filter from being applied to a column of this type.
pub open spec fn type_fault(
    op: FilterOp,
    value: Seq<char>,
    data_type: DataType,
    type_text: Seq<char>,
) -> Option<FilterErrorModel> {
    if data_type == DataType::Boolean {
        if op != FilterOp::Eq && op != FilterOp::Ne {
            Some(FilterErrorModel::OrderOnBooleans)
        } else if parsed_bool(value) is None {
            Some(FilterErrorModel::NotABoolean(value))
        } else {
            None
        }
    } else if data_type.filters_as_number() {
        if op == FilterOp::Contains {
            Some(FilterErrorModel::ContainsOnNumbers)
        } else if !is_number(value) {
            Some(FilterErrorModel::NotANumber(value))
        } else {
            None
        }
    } else if data_type.filters_as_text() {
        None
    } else {
        Some(FilterErrorModel::UnsupportedType(type_text))
    }
}

// ---------------------------------------------------------------------------
// Rows
// ---------------------------------------------------------------------------

/// How one number stands to another, where either may be no number at all.
#[derive(Clone, Copy, Debug, PartialEq, Eq, Structural)]
pub enum FloatOrder {
    Less,
    Equal,
    Greater,
    Unordered,
}

/// The values of the column that a filter reads, one per row; `None` is null.
/// Of a number only its order against the number of the filter matters.
#[derive(Debug)]
pub enum FilterInput {
    Booleans(Vec<Option<bool>>),
    Numbers(Vec<Option<FloatOrder>>),
    Texts(Vec<Option<String>>),
    Other,
}

pub open spec fn bool_matches(left: bool, right: bool, op: FilterOp) -> bool {
    match op {
        FilterOp::Eq => left == right,
        FilterOp::Ne => left != right,
        _ => false,
    }
}

pub open spec fn number_matches(order: FloatOrder, op: FilterOp) -> bool {
    match op {
        FilterOp::Eq => order == FloatOrder::Equal,
        FilterOp::Ne => order != FloatOrder::Equal,
        FilterOp::Gt => order == FloatOrder::Greater,
        FilterOp::Ge => order == FloatOrder::Greater || order == FloatOrder::Equal,
        FilterOp::Lt => order == FloatOrder::Less,
        FilterOp::Le => order == FloatOrder::Less || order == FloatOrder::Equal,
        FilterOp::Contains => false,
    }
}

pub open spec fn text_matches(left: Seq<char>, right: Seq<char>, op: FilterOp) -> bool {
    match op {
        FilterOp::Eq => left == right,
        FilterOp::Ne => left != right,
        FilterOp::Contains => contains_text(left, right),
        FilterOp::Gt => text_before(right, left),
        FilterOp::Ge => left == right || text_before(right, left),
        FilterOp::Lt => text_before(left, right),
        FilterOp::Le => left == right || text_before(left, right),
    }
}

pub fn compare_bool(left: bool, right: bool, op: FilterOp) -> (matched: bool)
    ensures
        matched == bool_matches(left, right, op),
{
    match op {
        FilterOp::Eq => left == right,
        FilterOp::Ne => left != right,
        _ => false,
    }
}

fn compare_number(order: FloatOrder, op: FilterOp) -> (matched: bool)
    ensures
        matched == number_matches(order, op),
{
    match op {
        FilterOp::Eq => order == FloatOrder::Equal,
        FilterOp::Ne => order != FloatOrder::Equal,
        FilterOp::Gt => order == FloatOrder::Greater,
        FilterOp::Ge => order == FloatOrder::Greater || order == FloatOrder::Equal,
        FilterOp::Lt => order == FloatOrder::Less,
        FilterOp::Le => order == FloatOrder::Less || order == FloatOrder::Equal,
        FilterOp::Contains => false,
    }
}

pub fn compare_str(left: &str, right: &str, op: FilterOp) -> (matched: bool)
    ensures
        matched == text_matches(left@, right@, op),
{
    if op == FilterOp::Contains {
        return contains(left, right);
    }
    proof {
        crate::text::lemma_text_before_total(left@, right@);
        crate::text::lemma_text_before_irreflexive(left@);
    }
    let order = compare_text(left, right);
    match op {
        FilterOp::Eq => order == Comparison::Equal,
        FilterOp::Ne => order != Comparison::Equal,
        FilterOp::Gt => order == Comparison::Greater,
        FilterOp::Ge => order != Comparison::Less,
        FilterOp::Lt => order == Comparison::Less,
        FilterOp::Le => order != Comparison::Greater,
        FilterOp::Contains => false,
    }
}

/// Whether row `row` of the column passes the filter; a null never does.
pub open spec fn row_matches(filter: FilterModel, input: FilterInput, row: int) -> bool {
    match input {
        FilterInput::Booleans(values) => values@[row] is Some && bool_matches(
            values@[row]->0,
            parsed_bool(filter.value)->0,
            filter.op,
        ),
        FilterInput::Numbers(orders) => orders@[row] is Some && number_matches(
            orders@[row]->0,
            filter.op,
        ),
        FilterInput::Texts(values) => values@[row] is Some && text_matches(
            values@[row]->0@,
            filter.value,
            filter.op,
        ),
        FilterInput::Other => false,
    }
}

/// How many rows the column has.
pub open spec fn input_rows(input: FilterInput) -> nat {
    match input {
        FilterInput::Booleans(values) => values@.len(),
        FilterInput::Numbers(orders) => orders@.len(),
        FilterInput::Texts(values) => values@.len(),
        FilterInput::Other => 0,
    }
}

/// What keeps the filter from being evaluated on this column.
pub open spec fn evaluation_fault(
    filter: FilterModel,
    input: FilterInput,
    type_text: Seq<char>,
) -> Option<FilterErrorModel> {
    match input {
        FilterInput::Booleans(_) => if parsed_bool(filter.value) is None {
            Some(FilterErrorModel::NotABoolean(filter.value))
        } else {
            None
        },
        FilterInput::Numbers(_) => if filter.op == FilterOp::Contains {
            Some(FilterErrorModel::ContainsOnNumbers)
        } else if !is_number(filter.value) {
            Some(FilterErrorModel::NotANumber(filter.value))
        } else {
            None
        },
        FilterInput::Texts(_) => None,
        FilterInput::Other => Some(FilterErrorModel::UnsupportedType(type_text)),
    }
}

impl FilterExpr {
    /// Reads a filter such as `price >= 10` or `name contains "abc"`.
    pub fn parse(input: &str) -> (result: Result<Self, FilterError>)
        ensures
            match result {
                Ok(filter) => parsed_filter(input@) == Ok::<FilterModel, FilterErrorModel>(filter@),
                Err(error) => parsed_filter(input@) == Err::<FilterModel, FilterErrorModel>(error@),
            },
    {
        let trimmed_input = trim(input);
        let s = trimmed_input.as_str();
        if s.is_empty() {
            return Err(FilterError::Empty);
        }
        if let Some(filter) = split_at_operator(s, " contains ", FilterOp::Contains) {
            return Ok(filter);
        }
        if let Some(filter) = split_at_operator(s, "==", FilterOp::Eq) {
            return Ok(filter);
        }
        if let Some(filter) = split_at_operator(s, "!=", FilterOp::Ne) {
            return Ok(filter);
        }
        if let Some(filter) = split_at_operator(s, ">=", FilterOp::Ge) {
            return Ok(filter);
        }
        if let Some(filter) = split_at_operator(s, "<=", FilterOp::Le) {
            return Ok(filter);
        }
        if let Some(filter) = split_at_operator(s, ">", FilterOp::Gt) {
            return Ok(filter);
        }
        if let Some(filter) = split_at_operator(s, "<", FilterOp::Lt) {
            return Ok(filter);
        }
        Err(FilterError::Unsupported(trimmed_input))
    }

    /// A copy of this filter.
    pub fn copy(&self) -> (copy: Self)
        ensures
            copy@ == self@,
    {
        FilterExpr { column: self.column.clone(), op: self.op, value: self.value.clone() }
    }

    /// The column that this filter reads.
    pub fn column_index(&self, schema: &Schema) -> (result: Result<usize, FilterError>)
        ensures
            match result {
                Ok(index) => named_column(self.column@, schema.names()) == Ok::<
                    int,
                    FilterErrorModel,
                >(index as int) && index < schema.fields@.len(),
                Err(error) => named_column(self.column@, schema.names()) == Err::<
                    int,
                    FilterErrorModel,
                >(error@),
            },
    {
        match parse_usize(self.column.as_str()) {
            Some(index) => {
                if index < schema.fields.len() {
                    Ok(index)
                } else {
                    Err(FilterError::IndexOutOfRange(index))
                }
            },
            None => {
                match find_column(&schema.fields, self.column.as_str()) {
                    Some(index) => Ok(index),
                    None => Err(FilterError::UnknownColumn(self.column.clone())),
                }
            },
        }
    }

    /// Whether this filter can be applied to a column of the dataset.
    pub fn validate_schema(&self, schema: &Schema) -> (result: Result<(), FilterError>)
        ensures
            match result {
                Ok(_) => named_column(self.column@, schema.names()) is Ok && type_fault(
                    self.op,
                    self.value@,
                    schema.fields@[named_column(self.column@, schema.names())->Ok_0].data_type,
                    schema.fields@[named_column(self.column@, schema.names())->Ok_0].type_text@,
                ) is None,
                Err(error) => match named_column(self.column@, schema.names()) {
                    Ok(index) => type_fault(
                        self.op,
                        self.value@,
                        schema.fields@[index].data_type,
                        schema.fields@[index].type_text@,
                    ) == Some(error@),
                    Err(fault) => fault == error@,
                },
            },
    {
        let index = match self.column_index(schema) {
            Ok(index) => index,
            Err(error) => return Err(error),
        };
        let field: &Field = &schema.fields[index];
        let data_type: DataType = field.data_type;
        if data_type == DataType::Boolean {
            if self.op != FilterOp::Eq && self.op != FilterOp::Ne {
                Err(FilterError::OrderOnBooleans)
            } else if parse_bool(self.value.as_str()).is_none() {
                Err(FilterError::NotABoolean(self.value.clone()))
            } else {
                Ok(())
            }
        } else if data_type.supports_numeric() {
            if self.op == FilterOp::Contains {
                Err(FilterError::ContainsOnNumbers)
            } else if !writes_number(self.value.as_str()) {
                Err(FilterError::NotANumber(self.value.clone()))
            } else {
                Ok(())
            }
        } else if data_type == DataType::Utf8 || data_type == DataType::LargeUtf8 {
            Ok(())
        } else {
            Err(FilterError::UnsupportedType(field.type_text.clone()))
        }
    }

    /// Which rows of the column pass; `type_text` names its type in an error.
    pub fn evaluate_batch(&self, input: &FilterInput, type_text: &str) -> (result: Result<
        Vec<bool>,
        FilterError,
    >)
        ensures
            match result {
                Ok(mask) => {
                    &&& evaluation_fault(self@, *input, type_text@) is None
                    &&& mask@.len() == input_rows(*input)
                    &&& forall|row: int|
                        0 <= row < mask@.len() ==> #[trigger] mask@[row] == row_matches(
                            self@,
                            *input,
                            row,
                        )
                },
                Err(error) => evaluation_fault(self@, *input, type_text@) == Some(error@),
            },
    {
        match input {
            FilterInput::Booleans(values) => self.evaluate_bool(values),
            FilterInput::Numbers(orders) => self.evaluate_numbers(orders),
            FilterInput::Texts(values) => Ok(self.evaluate_strings(values)),
            FilterInput::Other => Err(FilterError::UnsupportedType(type_text.to_owned())),
        }
    }

    fn evaluate_bool(&self, values: &Vec<Option<bool>>) -> (result: Result<Vec<bool>, FilterError>)
        ensures
            match result {
                Ok(mask) => {
                    &&& parsed_bool(self.value@) is Some
                    &&& mask@.len() == values@.len()
                    &&& forall|row: int|
                        0 <= row < mask@.len() ==> #[trigger] mask@[row] == (values@[row] is Some
                            && bool_matches(
                            values@[row]->0,
                            parsed_bool(self.value@)->0,
                            self.op,
                        ))
                },
                Err(error) => parsed_bool(self.value@) is None && error@
                    == FilterErrorModel::NotABoolean(self.value@),
            },
    {
        let expected: bool = match parse_bool(self.value.as_str()) {
            Some(expected) => expected,
            None => return Err(FilterError::NotABoolean(self.value.clone())),
        };
        let mut mask: Vec<bool> = Vec::new();
        let mut row: usize = 0;
        while row < values.len()
            invariant
                row <= values@.len(),
                parsed_bool(self.value@) == Some(expected),
                mask@.len() == row,
                forall|k: int|
                    0 <= k < row ==> #[trigger] mask@[k] == (values@[k] is Some && bool_matches(
                        values@[k]->0,
                        expected,
                        self.op,
                    )),
            decreases values@.len() - row,
        {
            let matched: bool = match values[row] {
                Some(value) => compare_bool(value, expected, self.op),
                None => false,
            };
            mask.push(matched);
            row = row + 1;
        }
        Ok(mask)
    }

    fn evaluate_numbers(&self, orders: &Vec<Option<FloatOrder>>) -> (result: Result<
        Vec<bool>,
        FilterError,
    >)
        ensures
            match result {
                Ok(mask) => {
                    &&& self.op != FilterOp::Contains
                    &&& is_number(self.value@)
                    &&& mask@.len() == orders@.len()
                    &&& forall|row: int|
                        0 <= row < mask@.len() ==> #[trigger] mask@[row] == (orders@[row] is Some
                            && number_matches(orders@[row]->0, self.op))
                },
                Err(FilterError::ContainsOnNumbers) => self.op == FilterOp::Contains,
                Err(error) => self.op != FilterOp::Contains && !is_number(self.value@) && error@
                    == FilterErrorModel::NotANumber(self.value@),
            },
    {
        if self.op == FilterOp::Contains {
            return Err(FilterError::ContainsOnNumbers);
        }
        if !writes_number(self.value.as_str()) {
            return Err(FilterError::NotANumber(self.value.clone()));
        }
        let mut mask: Vec<bool> = Vec::new();
        let mut row: usize = 0;
        while row < orders.len()
            invariant
                row <= orders@.len(),
                mask@.len() == row,
                forall|k: int|
                    0 <= k < row ==> #[trigger] mask@[k] == (orders@[k] is Some && number_matches(
                        orders@[k]->0,
                        self.op,
                    )),
            decreases orders@.len() - row,
        {
            let matched: bool = match orders[row] {
                Some(order) => compare_number(order, self.op),
                None => false,
            };
            mask.push(matched);
            row = row + 1;
        }
        Ok(mask)
    }

    fn evaluate_strings(&self, values: &Vec<Option<String>>) -> (mask: Vec<bool>)
        ensures
            mask@.len() == values@.len(),
            forall|row: int|
                0 <= row < mask@.len() ==> #[trigger] mask@[row] == (values@[row] is Some
                    && text_matches(values@[row]->0@, self.value@, self.op)),
    {
        let mut mask: Vec<bool> = Vec::new();
        let mut row: usize = 0;
        while row < values.len()
            invariant
                row <= values@.len(),
                mask@.len() == row,
                forall|k: int|
                    0 <= k < row ==> #[trigger] mask@[k] == (values@[k] is Some && text_matches(
                        values@[k]->0@,
                        self.value@,
                        self.op,
                    )),
            decreases values@.len() - row,
        {
            let matched: bool = match &values[row] {
                Some(value) => compare_str(value.as_str(), self.value.as_str(), self.op),
                None => false,
            };
            mask.push(matched);
            row = row + 1;
        }
        mask
    }
}


// ---------------------------------------------------------------------------
// Statistics
// ---------------------------------------------------------------------------

/// The least and the greatest value of a column in a row group, as far as they
/// are known. Of a number only its order against the number of the filter
/// matters.
#[derive(Debug)]
pub enum Statistics {
    Boolean(Option<bool>, Option<bool>),
    Number(Option<FloatOrder>, Option<FloatOrder>),
    ByteArray(Option<Vec<u8>>, Option<Vec<u8>>),
    Other,
}

/// Whether a truth value between `min` and `max` can pass.
pub open spec fn bool_range_can_match(
    min: Option<bool>,
    max: Option<bool>,
    value: bool,
    op: FilterOp,
) -> bool {
    match op {
        FilterOp::Eq => min is None || max is None || ((min->0 ==> value) && (value ==> max->0)),
        FilterOp::Ne => !(min == Some(value) && max == Some(value)),
        _ => true,
    }
}

/// Whether a number between `min` and `max` can pass, given how both stand to
/// the number of the filter.
pub open spec fn number_range_can_match(
    min: Option<FloatOrder>,
    max: Option<FloatOrder>,
    op: FilterOp,
) -> bool {
    op == FilterOp::Contains || min is None || max is None || match op {
        FilterOp::Eq => number_matches(min->0, FilterOp::Le) && number_matches(
            max->0,
            FilterOp::Ge,
        ),
        FilterOp::Ne => !(min->0 == FloatOrder::Equal && max->0 == FloatOrder::Equal),
        FilterOp::Gt => number_matches(max->0, FilterOp::Gt),
        FilterOp::Ge => number_matches(max->0, FilterOp::Ge),
        FilterOp::Lt => number_matches(min->0, FilterOp::Lt),
        FilterOp::Le => number_matches(min->0, FilterOp::Le),
        FilterOp::Contains => true,
    }
}

/// Whether a text between `min` and `max` can pass.
pub open spec fn text_range_can_match(
    min: Option<Seq<char>>,
    max: Option<Seq<char>>,
    value: Seq<char>,
    op: FilterOp,
) -> bool {
    op == FilterOp::Contains || min is None || max is None || match op {
        FilterOp::Eq => text_matches(min->0, value, FilterOp::Le) && text_matches(
            max->0,
            value,
            FilterOp::Ge,
        ),
        FilterOp::Ne => !(min->0 == value && max->0 == value),
        FilterOp::Gt => text_matches(max->0, value, FilterOp::Gt),
        FilterOp::Ge => text_matches(max->0, value, FilterOp::Ge),
        FilterOp::Lt => text_matches(min->0, value, FilterOp::Lt),
        FilterOp::Le => text_matches(min->0, value, FilterOp::Le),
        FilterOp::Contains => true,
    }
}

/// The text that known bytes encode, where they are UTF-8.
pub open spec fn known_text(bytes: Option<Vec<u8>>) -> Option<Seq<char>> {
    match bytes {
        Some(known) => if valid_utf8(known@) {
            Some(decode_utf8(known@))
        } else {
            None
        },
        None => None,
    }
}

/// Whether a row group with these statistics can hold a row that passes.
pub open spec fn group_can_match(filter: FilterModel, statistics: Option<Statistics>) -> bool {
    match statistics {
        None => true,
        Some(Statistics::Boolean(min, max)) => match parsed_bool(filter.value) {
            Some(value) => bool_range_can_match(min, max, value, filter.op),
            None => true,
        },
        Some(Statistics::Number(min, max)) => !is_number(filter.value) || number_range_can_match(
            min,
            max,
            filter.op,
        ),
        Some(Statistics::ByteArray(min, max)) => text_range_can_match(
            known_text(min),
            known_text(max),
            filter.value,
            filter.op,
        ),
        Some(Statistics::Other) => true,
    }
}

pub fn bool_range_might_match(
    min: Option<bool>,
    max: Option<bool>,
    value: bool,
    op: FilterOp,
) -> (possible: bool)
    ensures
        possible == bool_range_can_match(min, max, value, op),
{
    match (op, min, max) {
        (FilterOp::Eq, Some(min), Some(max)) => (!min || value) && (!value || max),
        (FilterOp::Ne, Some(min), Some(max)) => !(min == value && max == value),
        _ => true,
    }
}

pub fn number_range_might_match(
    min: Option<FloatOrder>,
    max: Option<FloatOrder>,
    op: FilterOp,
) -> (possible: bool)
    ensures
        possible == number_range_can_match(min, max, op),
{
    match (min, max) {
        (Some(min), Some(max)) => match op {
            FilterOp::Eq => compare_number(min, FilterOp::Le) && compare_number(max, FilterOp::Ge),
            FilterOp::Ne => !(min == FloatOrder::Equal && max == FloatOrder::Equal),
            FilterOp::Gt => compare_number(max, FilterOp::Gt),
            FilterOp::Ge => compare_number(max, FilterOp::Ge),
            FilterOp::Lt => compare_number(min, FilterOp::Lt),
            FilterOp::Le => compare_number(min, FilterOp::Le),
            FilterOp::Contains => true,
        },
        _ => true,
    }
}

pub fn string_range_might_match(
    min: Option<&str>,
    max: Option<&str>,
    value: &str,
    op: FilterOp,
) -> (possible: bool)
    ensures
        possible == text_range_can_match(
            if min is Some {
                Some(min->0@)
            } else {
                None
            },
            if max is Some {
                Some(max->0@)
            } else {
                None
            },
            value@,
            op,
        ),
{
    match (min, max) {
        (Some(min), Some(max)) => match op {
            FilterOp::Eq => compare_str(min, value, FilterOp::Le) && compare_str(
                max,
                value,
                FilterOp::Ge,
            ),
            FilterOp::Ne => !(same_text(min, value) && same_text(max, value)),
            FilterOp::Gt => compare_str(max, value, FilterOp::Gt),
            FilterOp::Ge => compare_str(max, value, FilterOp::Ge),
            FilterOp::Lt => compare_str(min, value, FilterOp::Lt),
            FilterOp::Le => compare_str(min, value, FilterOp::Le),
            FilterOp::Contains => true,
        },
        _ => true,
    }
}

fn decode_bound(bytes: &Option<Vec<u8>>) -> (text: Option<String>)
    ensures
        text is Some <==> known_text(*bytes) is Some,
        text is Some ==> text->0@ == known_text(*bytes)->0,
{
    match bytes {
        Some(known) => utf8_text(known),
        None => None,
    }
}

impl FilterExpr {
    /// Whether a row group with these statistics can hold a row that passes.
    pub fn might_match_statistics(&self, statistics: Option<&Statistics>) -> (possible: bool)
        ensures
            possible == group_can_match(
                self@,
                if statistics is Some {
                    Some(*statistics->0)
                } else {
                    None
                },
            ),
    {
        match statistics {
            None => true,
            Some(Statistics::Boolean(min, max)) => {
                match parse_bool(self.value.as_str()) {
                    Some(value) => bool_range_might_match(*min, *max, value, self.op),
                    None => true,
                }
            },
            Some(Statistics::Number(min, max)) => {
                !writes_number(self.value.as_str()) || number_range_might_match(*min, *max, self.op)
            },
            Some(Statistics::ByteArray(min, max)) => {
                let low = decode_bound(min);
                let high = decode_bound(max);
                match (&low, &high) {
                    (Some(low), Some(high)) => string_range_might_match(
                        Some(low.as_str()),
                        Some(high.as_str()),
                        self.value.as_str(),
                        self.op,
                    ),
                    _ => true,
                }
            },
            Some(Statistics::Other) => true,
        }
    }
}

/// A number passes a filter exactly where it stands to the number of the filter as the
/// operator says; a value that is no number is only unequal; a null never passes, and no
/// number contains another one. `row` and `value` are the two numbers.
pub proof fn law_numbers_pass_as_they_compare(
    filter: FilterModel,
    orders: Vec<Option<FloatOrder>>,
    at: int,
    row: int,
    value: int,
)
    requires
        0 <= at < orders@.len(),
        orders@[at] matches Some(order) ==> order != FloatOrder::Unordered ==> (order
            == FloatOrder::Less <==> row < value) && (order == FloatOrder::Equal <==> row == value)
            && (order == FloatOrder::Greater <==> row > value),
    ensures
        row_matches(filter, FilterInput::Numbers(orders), at) <==> match orders@[at] {
            None => false,
            Some(FloatOrder::Unordered) => filter.op == FilterOp::Ne,
            Some(_) => match filter.op {
                FilterOp::Eq => row == value,
                FilterOp::Ne => row != value,
                FilterOp::Gt => row > value,
                FilterOp::Ge => row >= value,
                FilterOp::Lt => row < value,
                FilterOp::Le => row <= value,
                FilterOp::Contains => false,
            },
        },
{
}

/// What one operator lets pass of the numbers, its opposite keeps out: each number that is
/// there passes exactly one of `<` and `>=`, of `>` and `<=`, and of `==` and `!=`, and
/// exactly one of `<`, `==` and `>`.
pub proof fn law_opposite_operators_share_the_numbers(order: FloatOrder)
    ensures
        order != FloatOrder::Unordered ==> number_matches(order, FilterOp::Lt) != number_matches(
            order,
            FilterOp::Ge,
        ),
        order != FloatOrder::Unordered ==> number_matches(order, FilterOp::Gt) != number_matches(
            order,
            FilterOp::Le,
        ),
        number_matches(order, FilterOp::Eq) != number_matches(order, FilterOp::Ne),
        !(number_matches(order, FilterOp::Lt) && number_matches(order, FilterOp::Eq)),
        !(number_matches(order, FilterOp::Lt) && number_matches(order, FilterOp::Gt)),
        !(number_matches(order, FilterOp::Gt) && number_matches(order, FilterOp::Eq)),
        number_matches(order, FilterOp::Le) <==> number_matches(order, FilterOp::Lt)
            || number_matches(order, FilterOp::Eq),
        number_matches(order, FilterOp::Ge) <==> number_matches(order, FilterOp::Gt)
            || number_matches(order, FilterOp::Eq),
{
}

/// A truth value passes `==` exactly where it is the one that the filter writes, and `!=`
/// exactly where it is the other one; a null never passes.
pub proof fn law_truth_values_pass_as_they_compare(
    filter: FilterModel,
    values: Vec<Option<bool>>,
    at: int,
    wanted: bool,
)
    requires
        0 <= at < values@.len(),
        filter.value == (if wanted {
            "true"@
        } else {
            "false"@
        }),
        filter.op == FilterOp::Eq || filter.op == FilterOp::Ne,
    ensures
        evaluation_fault(filter, FilterInput::Booleans(values), Seq::empty()) is None,
        row_matches(filter, FilterInput::Booleans(values), at) <==> match values@[at] {
            None => false,
            Some(row) => (row == wanted) == (filter.op == FilterOp::Eq),
        },
{
    reveal_strlit("true");
    reveal_strlit("false");
    assert("true"@[0] != "false"@[0]);
}

/// A text passes a filter exactly where it stands to the text of the filter as the operator
/// says: it is that text, or not; it has that text as a part; or the two differ first at a
/// place where one ends or has the lesser character. `at` is the first place where they
/// differ, or where one of them ends. A null never passes.
pub proof fn law_texts_pass_as_they_compare(
    filter: FilterModel,
    values: Vec<Option<String>>,
    row: int,
    at: int,
)
    requires
        0 <= row < values@.len(),
        values@[row] matches Some(text) ==> {
            &&& 0 <= at <= text@.len()
            &&& at <= filter.value.len()
            &&& text@.take(at) == filter.value.take(at)
            &&& at < text@.len() && at < filter.value.len() ==> text@[at] != filter.value[at]
        },
    ensures
        row_matches(filter, FilterInput::Texts(values), row) <==> match values@[row] {
            None => false,
            Some(text) => {
                let lesser = at < filter.value.len() && (at == text@.len() || (text@[at] as int) < (
                filter.value[at] as int));
                let greater = at < text@.len() && (at == filter.value.len() || (text@[at] as int) > (
                filter.value[at] as int));
                match filter.op {
                    FilterOp::Eq => text@ == filter.value,
                    FilterOp::Ne => text@ != filter.value,
                    FilterOp::Gt => greater,
                    FilterOp::Ge => !lesser,
                    FilterOp::Lt => lesser,
                    FilterOp::Le => !greater,
                    FilterOp::Contains => exists|from: int|
                        0 <= from && from + filter.value.len() <= text@.len()
                            && #[trigger] text@.subrange(from, from + filter.value.len())
                            == filter.value,
                }
            },
        },
{
    if let Some(text) = values@[row] {
        crate::text::law_first_difference_orders_texts(text@, filter.value, at);
        crate::text::law_first_difference_orders_texts(filter.value, text@, at);
        crate::text::lemma_text_before_total(text@, filter.value);
        crate::text::lemma_text_before_irreflexive(filter.value);
        if contains_text(text@, filter.value) {
            let from = choose|from: int| #[trigger]
                crate::text::occurs_at(text@, filter.value, from);
            assert(text@.subrange(from, from + filter.value.len()) == filter.value);
        }
        if exists|from: int|
            0 <= from && from + filter.value.len() <= text@.len() && #[trigger] text@.subrange(
                from,
                from + filter.value.len(),
            ) == filter.value {
            let from = choose|from: int|
                0 <= from && from + filter.value.len() <= text@.len() && #[trigger] text@.subrange(
                    from,
                    from + filter.value.len(),
                ) == filter.value;
            assert(crate::text::occurs_at(text@, filter.value, from));
        }
    }
}

/// Whether a text holds none of the characters that operators are made of.
pub open spec fn holds_no_operator(s: Seq<char>) -> bool {
    forall|i: int|
        0 <= i < s.len() ==> #[trigger] s[i] != '=' && s[i] != '!' && s[i] != '<' && s[i] != '>'
}

/// Whether a text begins and ends with something else than white space.
pub open spec fn is_tight(s: Seq<char>) -> bool {
    s.len() > 0 && !crate::text::is_space(s[0]) && !crate::text::is_space(s.last())
}

/// Whether a value is not written in quotes.
pub open spec fn is_bare(value: Seq<char>) -> bool {
    value[0] != '"' && value[0] != '\''
}

proof fn lemma_not_found(s: Seq<char>, needle: Seq<char>)
    requires
        forall|at: int| !(#[trigger] crate::text::occurs_at(s, needle, at)),
    ensures
        split_once(s, needle) is None,
{
    crate::text::lemma_find_from(s, needle, 0);
}

proof fn lemma_found(s: Seq<char>, needle: Seq<char>, at: int)
    requires
        crate::text::occurs_at(s, needle, at),
        forall|k: int| 0 <= k < at ==> !(#[trigger] crate::text::occurs_at(s, needle, k)),
    ensures
        split_once(s, needle) == Some(
            (s.subrange(0, at), s.subrange(at + needle.len() as int, s.len() as int)),
        ),
{
    crate::text::lemma_find_from(s, needle, 0);
    let found = crate::text::find_text(s, needle);
    assert(found is Some);
    if found->0 > at {
        assert(!crate::text::occurs_at(s, needle, at));
    }
    if found->0 < at {
        assert(!crate::text::occurs_at(s, needle, found->0));
    }
}

/// An operator of one or two characters is found where it stands between two texts that
/// hold none, and no other one is found before it in the list.
proof fn lemma_operator_found(left: Seq<char>, operator: Seq<char>, right: Seq<char>, op: FilterOp)
    requires
        holds_no_operator(left),
        holds_no_operator(right),
        is_tight(left + operator + right),
        !contains_text(left + operator + right, " contains "@),
        match op {
            FilterOp::Eq => operator == seq!['=', '='],
            FilterOp::Ne => operator == seq!['!', '='],
            FilterOp::Ge => operator == seq!['>', '='],
            FilterOp::Le => operator == seq!['<', '='],
            FilterOp::Gt => operator == seq!['>'],
            FilterOp::Lt => operator == seq!['<'],
            FilterOp::Contains => false,
        },
    ensures
        parsed_filter(left + operator + right) == Ok::<FilterModel, FilterErrorModel>(
            FilterModel { column: trimmed(left), op, value: unquoted(trimmed(right)) },
        ),
{
    let s = left + operator + right;
    let p = left.len() as int;
    let q = p + operator.len();
    let nothing = Seq::<char>::empty();
    crate::text::law_trimming_undoes_padding(nothing, s, nothing);
    assert(nothing + s + nothing =~= s);
    assert(trimmed(s) == s);
    reveal_strlit("==");
    reveal_strlit("!=");
    reveal_strlit(">=");
    reveal_strlit("<=");
    reveal_strlit(">");
    reveal_strlit("<");
    assert("=="@ =~= seq!['=', '=']);
    assert("!="@ =~= seq!['!', '=']);
    assert(">="@ =~= seq!['>', '=']);
    assert("<="@ =~= seq!['<', '=']);
    assert(">"@ =~= seq!['>']);
    assert("<"@ =~= seq!['<']);
    assert forall|at: int| !(#[trigger] crate::text::occurs_at(s, " contains "@, at)) by {
        assert(contains_text(s, " contains "@) || !crate::text::occurs_at(s, " contains "@, at));
    }
    lemma_not_found(s, " contains "@);
    assert forall|i: int| 0 <= i < s.len() && (i < p || i >= q) implies #[trigger] s[i] != '=' && s[i]
        != '!' && s[i] != '<' && s[i] != '>' by {
        if i < p {
            assert(s[i] == left[i]);
        } else {
            assert(s[i] == right[i - q]);
        }
    }
    assert forall|i: int| p <= i < q implies #[trigger] s[i] == operator[i - p] by {}
    assert forall|needle: Seq<char>, at: int|
        (needle == seq!['=', '='] || needle == seq!['!', '='] || needle == seq!['>', '='] || needle
            == seq!['<', '='] || needle == seq!['>'] || needle == seq!['<'])
            && #[trigger] crate::text::occurs_at(s, needle, at) implies at == p && needle[0]
        == operator[0] && needle.len() <= operator.len() && (needle.len() == 2 ==> needle == operator) by {
        let part = s.subrange(at, at + needle.len());
        assert(part[0] == s[at]);
        if needle.len() == 2 {
            assert(part[1] == s[at + 1]);
            assert(needle =~= seq![needle[0], needle[1]]);
        }
        if at != p {
            assert(p < at < q);
            assert(s[at] == operator[1]);
        }
        if needle.len() == 2 {
            assert(at + 1 < q);
            assert(needle =~= operator);
        }
    }
    assert(s.subrange(p, q) =~= operator);
    assert(crate::text::occurs_at(s, operator, p));
    lemma_found(s, operator, p);
    assert(s.subrange(0, p) =~= left);
    assert(s.subrange(q, s.len() as int) =~= right);
    if op != FilterOp::Eq {
        lemma_not_found(s, "=="@);
        if op != FilterOp::Ne {
            lemma_not_found(s, "!="@);
            if op != FilterOp::Ge {
                lemma_not_found(s, ">="@);
                if op != FilterOp::Le {
                    lemma_not_found(s, "<="@);
                    if op != FilterOp::Gt {
                        lemma_not_found(s, ">"@);
                    }
                }
            }
        }
    }
}

/// A column, an operator and a value that are written one after the other, with a space
/// between them, are read as this column, this operator and this value.
pub proof fn law_written_filter_is_read(
    column: Seq<char>,
    operator: Seq<char>,
    op: FilterOp,
    value: Seq<char>,
)
    requires
        is_tight(column),
        is_tight(value),
        is_bare(value),
        holds_no_operator(column),
        holds_no_operator(value),
        !contains_text(column + seq![' '] + operator + seq![' '] + value, " contains "@),
        match op {
            FilterOp::Eq => operator == seq!['=', '='],
            FilterOp::Ne => operator == seq!['!', '='],
            FilterOp::Ge => operator == seq!['>', '='],
            FilterOp::Le => operator == seq!['<', '='],
            FilterOp::Gt => operator == seq!['>'],
            FilterOp::Lt => operator == seq!['<'],
            FilterOp::Contains => false,
        },
    ensures
        parsed_filter(column + seq![' '] + operator + seq![' '] + value) == Ok::<
            FilterModel,
            FilterErrorModel,
        >(FilterModel { column, op, value }),
{
    let space = seq![' '];
    let nothing = Seq::<char>::empty();
    let left = column + space;
    let right = space + value;
    let s = left + operator + right;
    assert(column + space + operator + space + value =~= s);
    assert(s[0] == column[0]);
    assert(s.last() == value.last());
    assert forall|i: int| 0 <= i < left.len() implies #[trigger] left[i] != '=' && left[i] != '!'
        && left[i] != '<' && left[i] != '>' by {
        if i < column.len() {
            assert(left[i] == column[i]);
        }
    }
    assert forall|i: int| 0 <= i < right.len() implies #[trigger] right[i] != '=' && right[i] != '!'
        && right[i] != '<' && right[i] != '>' by {
        if i > 0 {
            assert(right[i] == value[i - 1]);
        }
    }
    lemma_operator_found(left, operator, right, op);
    crate::text::law_trimming_undoes_padding(nothing, column, space);
    crate::text::law_trimming_undoes_padding(space, value, nothing);
    assert(nothing + column + space =~= left);
    assert(space + value + nothing =~= right);
}

/// A column and a value with `contains` between them are read as this column and this
/// value, whatever the value holds.
pub proof fn law_written_search_is_read(column: Seq<char>, value: Seq<char>)
    requires
        is_tight(column),
        is_tight(value),
        is_bare(value),
        forall|k: int|
            0 <= k < column.len() ==> !(#[trigger] crate::text::occurs_at(
                column + " contains "@ + value,
                " contains "@,
                k,
            )),
    ensures
        parsed_filter(column + " contains "@ + value) == Ok::<FilterModel, FilterErrorModel>(
            FilterModel { column, op: FilterOp::Contains, value },
        ),
{
    let word = " contains "@;
    let nothing = Seq::<char>::empty();
    let s = column + word + value;
    let p = column.len() as int;
    assert(s[0] == column[0]);
    assert(s.last() == value.last());
    crate::text::law_trimming_undoes_padding(nothing, s, nothing);
    assert(nothing + s + nothing =~= s);
    assert(s.subrange(p, p + word.len()) =~= word);
    lemma_found(s, word, p);
    assert(s.subrange(0, p) =~= column);
    assert(s.subrange(p + word.len(), s.len() as int) =~= value);
    crate::text::law_trimming_undoes_padding(nothing, column, nothing);
    crate::text::law_trimming_undoes_padding(nothing, value, nothing);
    assert(nothing + column + nothing =~= column);
    assert(nothing + value + nothing =~= value);
}

/// Quotes around a value are not part of it; what stands between them is.
pub proof fn law_quotes_are_not_part_of_a_value(value: Seq<char>)
    ensures
        unquoted(seq!['"'] + value + seq!['"']) == value,
        unquoted(seq!['\''] + value + seq!['\'']) == value,
        value.len() > 0 && is_bare(value) ==> unquoted(value) == value,
        value.len() < 2 ==> unquoted(value) == value,
{
    let double = seq!['"'] + value + seq!['"'];
    let single = seq!['\''] + value + seq!['\''];
    assert(double.subrange(1, double.len() - 1) =~= value);
    assert(single.subrange(1, single.len() - 1) =~= value);
}

/// A row group is never skipped while it holds a truth value that passes.
pub proof fn law_bool_pruning_is_sound(min: bool, max: bool, row: bool, value: bool, op: FilterOp)
    requires
        min ==> row,
        row ==> max,
        bool_matches(row, value, op),
    ensures
        bool_range_can_match(Some(min), Some(max), value, op),
{
}

/// A row group is never skipped while it holds a number that passes: `min`,
/// `row` and `max` are how three numbers in ascending order stand to the
/// number of the filter.
pub proof fn law_number_pruning_is_sound(
    min: FloatOrder,
    max: FloatOrder,
    row: FloatOrder,
    op: FilterOp,
)
    requires
        min != FloatOrder::Unordered && row != FloatOrder::Unordered && max
            != FloatOrder::Unordered,
        min == FloatOrder::Greater ==> row == FloatOrder::Greater,
        row == FloatOrder::Greater ==> max == FloatOrder::Greater,
        row == FloatOrder::Less ==> min == FloatOrder::Less,
        max == FloatOrder::Less ==> row == FloatOrder::Less,
        number_matches(row, op),
    ensures
        number_range_can_match(Some(min), Some(max), op),
{
}

/// A row group is never skipped while it holds a text that passes.
pub proof fn law_text_pruning_is_sound(
    min: Seq<char>,
    max: Seq<char>,
    row: Seq<char>,
    value: Seq<char>,
    op: FilterOp,
)
    requires
        text_matches(min, row, FilterOp::Le),
        text_matches(row, max, FilterOp::Le),
        text_matches(row, value, op),
    ensures
        text_range_can_match(Some(min), Some(max), value, op),
{
    crate::text::lemma_text_before_total(row, value);
    if text_before(row, value) && text_before(min, row) {
        crate::text::lemma_text_before_transitive(min, row, value);
    }
    if text_before(value, row) && text_before(row, max) {
        crate::text::lemma_text_before_transitive(value, row, max);
    }
    if min == value && max == value && text_before(min, row) && text_before(row, max) {
        crate::text::lemma_text_before_transitive(min, row, max);
        crate::text::lemma_text_before_irreflexive(value);
    }
}

/// A row group in which all rows hold the same value is read exactly where that value
/// passes.
pub proof fn law_pruning_is_exact_on_one_value(
    truth: bool,
    wanted: bool,
    order: FloatOrder,
    text: Seq<char>,
    value: Seq<char>,
    op: FilterOp,
)
    requires
        op != FilterOp::Contains,
        order != FloatOrder::Unordered,
    ensures
        op == FilterOp::Eq || op == FilterOp::Ne ==> bool_range_can_match(
            Some(truth),
            Some(truth),
            wanted,
            op,
        ) == bool_matches(truth, wanted, op),
        number_range_can_match(Some(order), Some(order), op) == number_matches(order, op),
        text_range_can_match(Some(text), Some(text), value, op) == text_matches(text, value, op),
{
    crate::text::lemma_text_before_total(text, value);
    crate::text::lemma_text_before_irreflexive(text);
    if text_before(text, value) && text_before(value, text) {
        crate::text::lemma_text_before_transitive(text, value, text);
    }
}

/// A row group is skipped only for what its statistics say of the type of its values.
/// Whatever a row between the least and the greatest value is, the group is read where the
/// row passes; a group without statistics is always read.
pub proof fn law_group_with_a_match_is_read(
    filter: FilterModel,
    bounds: (bool, bool, bool),
    texts: (Vec<u8>, Vec<u8>, Seq<char>),
    value: bool,
)
    ensures
        group_can_match(filter, None),
        parsed_bool(filter.value) == Some(value) && (bounds.0 ==> bounds.1) && (bounds.1
            ==> bounds.2) && bool_matches(bounds.1, value, filter.op) ==> group_can_match(
            filter,
            Some(Statistics::Boolean(Some(bounds.0), Some(bounds.2))),
        ),
        valid_utf8(texts.0@) && valid_utf8(texts.1@) && !text_before(
            texts.2,
            decode_utf8(texts.0@),
        ) && !text_before(decode_utf8(texts.1@), texts.2) && text_matches(
            texts.2,
            filter.value,
            filter.op,
        ) ==> group_can_match(filter, Some(Statistics::ByteArray(Some(texts.0), Some(texts.1)))),
{
    let (least, greatest, row) = (decode_utf8(texts.0@), decode_utf8(texts.1@), texts.2);
    crate::text::lemma_text_before_total(row, least);
    crate::text::lemma_text_before_total(greatest, row);
    if valid_utf8(texts.0@) && valid_utf8(texts.1@) && !text_before(row, least) && !text_before(
        greatest,
        row,
    ) && text_matches(row, filter.value, filter.op) {
        law_text_pruning_is_sound(least, greatest, row, filter.value, filter.op);
    }
    if parsed_bool(filter.value) == Some(value) && (bounds.0 ==> bounds.1) && (bounds.1
        ==> bounds.2) && bool_matches(bounds.1, value, filter.op) {
        law_bool_pruning_is_sound(bounds.0, bounds.2, bounds.1, value, filter.op);
    }
}

/// A filter names its column by its number, counted from zero, or else by its name; of
/// columns with the same name it means the first one.
pub proof fn law_filter_names_its_column(column: Seq<char>, names: Seq<Seq<char>>, n: usize)
    ensures
        n < names.len() ==> named_column(decimal(n as nat), names) == Ok::<int, FilterErrorModel>(
            n as int,
        ),
        n >= names.len() ==> named_column(decimal(n as nat), names) is Err,
        parsed_unsigned(column, usize::MAX as nat) is None ==> match named_column(column, names) {
            Ok(index) => 0 <= index < names.len() && names[index] == column && forall|k: int|
                0 <= k < index ==> names[k] != column,
            Err(_) => !names.contains(column),
        },
{
    law_parse_inverts_decimal(n as nat, usize::MAX as nat);
    lemma_first_index(names, column);
}

/// A filter that is accepted for the type of a column can be applied to its values, and one
/// that cannot be applied is not accepted.
pub proof fn law_accepted_filter_can_be_applied(
    filter: FilterModel,
    input: FilterInput,
    data_type: DataType,
    type_text: Seq<char>,
)
    requires
        data_type == DataType::Boolean <==> input is Booleans,
        data_type.numeric() <==> input is Numbers,
        data_type == DataType::Utf8 || data_type == DataType::LargeUtf8 <==> input is Texts,
    ensures
        type_fault(filter.op, filter.value, data_type, type_text) is None ==> evaluation_fault(
            filter,
            input,
            type_text,
        ) is None,
        evaluation_fault(filter, input, type_text) is None && (input is Booleans ==> filter.op
            == FilterOp::Eq || filter.op == FilterOp::Ne) ==> type_fault(
            filter.op,
            filter.value,
            data_type,
            type_text,
        ) is None,
{
}

} // verus!
