//! What the user reads when something is refused.

use crate::accumulate::AggregateError;
use crate::aggregate::EmptyAggregate;
use crate::logical::PlanStep;
use crate::metadata::{RowCountOverflow, WindowPastEnd};
use crate::output::OutputError;
use crate::planner::PlanError;
use crate::projection::ProjectionError;
use crate::scalar::ScalarError;
use crate::schema::{DataType, Field, Schema, TimeUnit};
use crate::sort::BudgetError;
use crate::sorted::OverBudget;
use crate::sql::{SqlError, SqlErrorOf};
use crate::text::{cat, cat3, cat5, decimal, decimal_text};
use vstd::prelude::*;

verus! {

impl ProjectionError {
    /// The message that the user sees.
    pub open spec fn message_text(self) -> Seq<char> {
        match self {
            ProjectionError::OutOfRange(column) => "column index "@ + decimal(column as nat)
                + " out of range"@,
            ProjectionError::Duplicate(column) => "duplicate column index "@ + decimal(
                column as nat,
            ),
        }
    }

    /// The message that the user sees.
    pub fn message(&self) -> (text: String)
        ensures
            text@ == self.message_text(),
    {
        match self {
            ProjectionError::OutOfRange(column) => cat3(
                "column index ",
                decimal_text(*column as u64).as_str(),
                " out of range",
            ),
            ProjectionError::Duplicate(column) => cat(
                "duplicate column index ",
                decimal_text(*column as u64).as_str(),
            ),
        }
    }
}

impl EmptyAggregate {
    /// The message that the user sees.
    pub fn message(&self) -> (text: String)
        ensures
            text@ == "aggregate needs at least one expression"@,
    {
        "aggregate needs at least one expression".to_owned()
    }
}

impl BudgetError {
    /// The message that the user sees for the budget of a sort.
    pub open spec fn sort_text(self) -> Seq<char> {
        match self {
            BudgetError::NoItems => "sort budget needs at least one row"@,
            BudgetError::NoBytes => "sort budget needs a positive byte limit"@,
        }
    }

    /// The message that the user sees for the budget of groups.
    pub open spec fn group_text(self) -> Seq<char> {
        match self {
            BudgetError::NoItems => "group budget needs at least one group"@,
            BudgetError::NoBytes => "group budget needs a positive byte limit"@,
        }
    }

    /// The message that the user sees for the budget of a sort.
    pub fn sort_message(&self) -> (text: String)
        ensures
            text@ == self.sort_text(),
    {
        match self {
            BudgetError::NoItems => "sort budget needs at least one row".to_owned(),
            BudgetError::NoBytes => "sort budget needs a positive byte limit".to_owned(),
        }
    }

    /// The message that the user sees for the budget of groups.
    pub fn group_message(&self) -> (text: String)
        ensures
            text@ == self.group_text(),
    {
        match self {
            BudgetError::NoItems => "group budget needs at least one group".to_owned(),
            BudgetError::NoBytes => "group budget needs a positive byte limit".to_owned(),
        }
    }
}

impl RowCountOverflow {
    /// The message that the user sees.
    pub fn message(&self) -> (text: String)
        ensures
            text@ == "cumulative row count overflow"@,
    {
        "cumulative row count overflow".to_owned()
    }
}

impl WindowPastEnd {
    /// The message that the user sees.
    pub open spec fn message_text(self) -> Seq<char> {
        "first row "@ + decimal(self.first_row as nat) + " is past row count "@ + decimal(
            self.row_count as nat,
        )
    }

    /// The message that the user sees.
    pub fn message(&self) -> (text: String)
        ensures
            text@ == self.message_text(),
    {
        let mut text = cat3("first row ", decimal_text(self.first_row).as_str(), " is past row count ");
        text.append(decimal_text(self.row_count).as_str());
        text
    }
}

impl OverBudget {
    /// The message that the user sees.
    pub open spec fn message_text(self) -> Seq<char> {
        "sort input exceeds the in-memory sort budget of "@ + decimal(self.max_rows as nat)
            + " rows / "@ + decimal(self.max_bytes as nat)
            + " bytes; external sorting is unavailable"@
    }

    /// The message that the user sees.
    pub fn message(&self) -> (text: String)
        ensures
            text@ == self.message_text(),
    {
        cat5(
            "sort input exceeds the in-memory sort budget of ",
            decimal_text(self.max_rows as u64).as_str(),
            " rows / ",
            decimal_text(self.max_bytes as u64).as_str(),
            " bytes; external sorting is unavailable",
        )
    }
}

/// The message for a dataset with more rows than a sort may hold.
pub open spec fn too_many_rows_text(rows: nat, max_rows: nat) -> Seq<char> {
    "sort input has "@ + decimal(rows) + " rows, exceeding the in-memory sort budget of "@
        + decimal(max_rows) + " rows; external sorting is unavailable"@
}

/// The message for a dataset with more rows than a sort may hold.
pub fn too_many_rows_message(rows: u64, max_rows: usize) -> (text: String)
    ensures
        text@ == too_many_rows_text(rows as nat, max_rows as nat),
{
    cat5(
        "sort input has ",
        decimal_text(rows).as_str(),
        " rows, exceeding the in-memory sort budget of ",
        decimal_text(max_rows as u64).as_str(),
        " rows; external sorting is unavailable",
    )
}

/// What is read when a value of this type is wanted.
pub open spec fn read_label(data_type: DataType) -> Seq<char> {
    match data_type {
        DataType::Boolean => "read boolean aggregate value"@,
        DataType::Int8 => "read int8 aggregate value"@,
        DataType::Int16 => "read int16 aggregate value"@,
        DataType::Int32 => "read int32 aggregate value"@,
        DataType::Int64 => "read int64 aggregate value"@,
        DataType::UInt8 => "read uint8 aggregate value"@,
        DataType::UInt16 => "read uint16 aggregate value"@,
        DataType::UInt32 => "read uint32 aggregate value"@,
        DataType::UInt64 => "read uint64 aggregate value"@,
        DataType::Float32 => "read float32 aggregate value"@,
        DataType::Float64 => "read float64 aggregate value"@,
        DataType::Utf8 => "read string aggregate value"@,
        DataType::Date32 => "read date32 aggregate value"@,
        DataType::Date64 => "read date64 aggregate value"@,
        DataType::Timestamp { unit: TimeUnit::Second, .. } => "read second timestamp aggregate value"@,
        DataType::Timestamp { unit: TimeUnit::Millisecond, .. } => "read millisecond timestamp aggregate value"@,
        DataType::Timestamp { unit: TimeUnit::Microsecond, .. } => "read microsecond timestamp aggregate value"@,
        DataType::Timestamp { unit: TimeUnit::Nanosecond, .. } => "read nanosecond timestamp aggregate value"@,
        _ => "read aggregate value"@,
    }
}

fn read_text(data_type: DataType) -> (text: &'static str)
    ensures
        text@ == read_label(data_type),
{
    match data_type {
        DataType::Boolean => "read boolean aggregate value",
        DataType::Int8 => "read int8 aggregate value",
        DataType::Int16 => "read int16 aggregate value",
        DataType::Int32 => "read int32 aggregate value",
        DataType::Int64 => "read int64 aggregate value",
        DataType::UInt8 => "read uint8 aggregate value",
        DataType::UInt16 => "read uint16 aggregate value",
        DataType::UInt32 => "read uint32 aggregate value",
        DataType::UInt64 => "read uint64 aggregate value",
        DataType::Float32 => "read float32 aggregate value",
        DataType::Float64 => "read float64 aggregate value",
        DataType::Utf8 => "read string aggregate value",
        DataType::Date32 => "read date32 aggregate value",
        DataType::Date64 => "read date64 aggregate value",
        DataType::Timestamp { unit: TimeUnit::Second, .. } => "read second timestamp aggregate value",
        DataType::Timestamp { unit: TimeUnit::Millisecond, .. } => "read millisecond timestamp aggregate value",
        DataType::Timestamp { unit: TimeUnit::Microsecond, .. } => "read microsecond timestamp aggregate value",
        DataType::Timestamp { unit: TimeUnit::Nanosecond, .. } => "read nanosecond timestamp aggregate value",
        _ => "read aggregate value",
    }
}

impl ScalarError {
    /// The message that the user sees, given the name of the type of the column.
    pub open spec fn message_text(self, type_text: Seq<char>) -> Seq<char> {
        match self {
            ScalarError::Mismatch(data_type) => read_label(data_type),
            ScalarError::Unsupported(_) => "aggregate cannot read unsupported "@ + type_text
                + " values"@,
        }
    }

    /// The message that the user sees, given the name of the type of the column.
    pub fn message(&self, type_text: &str) -> (text: String)
        ensures
            text@ == self.message_text(type_text@),
    {
        match self {
            ScalarError::Mismatch(data_type) => read_text(*data_type).to_owned(),
            ScalarError::Unsupported(_) => cat3(
                "aggregate cannot read unsupported ",
                type_text,
                " values",
            ),
        }
    }
}

impl OutputError {
    /// The message that the user sees, given the name of the type of the column.
    pub open spec fn message_text(self, type_text: Seq<char>) -> Seq<char> {
        match self {
            OutputError::Mismatch => "aggregate output type mismatch"@,
            OutputError::Unsupported(_) => "aggregate output is not supported for "@ + type_text,
        }
    }

    /// The message that the user sees, given the name of the type of the column.
    pub fn message(&self, type_text: &str) -> (text: String)
        ensures
            text@ == self.message_text(type_text@),
    {
        match self {
            OutputError::Mismatch => "aggregate output type mismatch".to_owned(),
            OutputError::Unsupported(_) => cat("aggregate output is not supported for ", type_text),
        }
    }
}

impl AggregateError {
    /// The message that the user sees, given the name of the type of the column
    /// that was read.
    pub open spec fn message_text(self, type_text: Seq<char>) -> Seq<char> {
        match self {
            AggregateError::CountOverflow => "COUNT overflow"@,
            AggregateError::SignedMismatch => "SUM encountered an incompatible signed value"@,
            AggregateError::SignedOverflow => "SUM overflow for signed integer"@,
            AggregateError::UnsignedMismatch => "SUM encountered an incompatible unsigned value"@,
            AggregateError::UnsignedOverflow => "SUM overflow for unsigned integer"@,
            AggregateError::NotNumeric => "aggregate encountered an incompatible numeric value"@,
            AggregateError::FloatOverflow => "SUM overflow for floating-point value"@,
            AggregateError::AvgOverflow => "AVG overflow for numeric value"@,
            AggregateError::AvgCountOverflow => "AVG count overflow"@,
            AggregateError::SumNeedsNumeric => "SUM needs a numeric column"@,
            AggregateError::UnsupportedInput => "aggregate expression has an unsupported input type"@,
            AggregateError::NeedsSourceColumn => "MIN/MAX needs a source column"@,
            AggregateError::NotACount => "COUNT(*) fast path received a non-count aggregate"@,
            AggregateError::Inconsistent => "aggregate input projection was inconsistent"@,
            AggregateError::ColumnOutOfRange(column) => "aggregate column "@ + decimal(column as nat) + " out of range"@,
            AggregateError::GroupOutOfRange(column) => "group column "@ + decimal(column as nat) + " out of range"@,
            AggregateError::GroupLimit(limit) => "grouped aggregate exceeds the in-memory group budget of "@ + decimal(limit as nat) + " groups"@,
            AggregateError::ByteLimit(limit) => "grouped aggregate exceeds the in-memory group budget of "@ + decimal(limit as nat) + " bytes"@,
            AggregateError::Read(error) => error.message_text(type_text),
        }
    }

    /// The message that the user sees, given the name of the type of the column
    /// that was read.
    pub fn message(&self, type_text: &str) -> (text: String)
        ensures
            text@ == self.message_text(type_text@),
    {
        match self {
            AggregateError::CountOverflow => "COUNT overflow".to_owned(),
            AggregateError::SignedMismatch => "SUM encountered an incompatible signed value".to_owned(),
            AggregateError::SignedOverflow => "SUM overflow for signed integer".to_owned(),
            AggregateError::UnsignedMismatch => "SUM encountered an incompatible unsigned value".to_owned(),
            AggregateError::UnsignedOverflow => "SUM overflow for unsigned integer".to_owned(),
            AggregateError::NotNumeric => "aggregate encountered an incompatible numeric value".to_owned(),
            AggregateError::FloatOverflow => "SUM overflow for floating-point value".to_owned(),
            AggregateError::AvgOverflow => "AVG overflow for numeric value".to_owned(),
            AggregateError::AvgCountOverflow => "AVG count overflow".to_owned(),
            AggregateError::SumNeedsNumeric => "SUM needs a numeric column".to_owned(),
            AggregateError::UnsupportedInput => "aggregate expression has an unsupported input type".to_owned(),
            AggregateError::NeedsSourceColumn => "MIN/MAX needs a source column".to_owned(),
            AggregateError::NotACount => "COUNT(*) fast path received a non-count aggregate".to_owned(),
            AggregateError::Inconsistent => "aggregate input projection was inconsistent".to_owned(),
            AggregateError::ColumnOutOfRange(column) => cat3(
                "aggregate column ",
                decimal_text(*column as u64).as_str(),
                " out of range",
            ),
            AggregateError::GroupOutOfRange(column) => cat3(
                "group column ",
                decimal_text(*column as u64).as_str(),
                " out of range",
            ),
            AggregateError::GroupLimit(limit) => cat3(
                "grouped aggregate exceeds the in-memory group budget of ",
                decimal_text(*limit as u64).as_str(),
                " groups",
            ),
            AggregateError::ByteLimit(limit) => cat3(
                "grouped aggregate exceeds the in-memory group budget of ",
                decimal_text(*limit as u64).as_str(),
                " bytes",
            ),
            AggregateError::Read(error) => error.message(type_text),
        }
    }
}

/// The name of a step in a message.
pub open spec fn step_label(step: PlanStep) -> Seq<char> {
    match step {
        PlanStep::Projection => "projection"@,
        PlanStep::Filter => "filter"@,
        PlanStep::Aggregate => "aggregate"@,
        PlanStep::Sort => "sort"@,
        PlanStep::Limit => "limit"@,
    }
}

fn step_text(step: PlanStep) -> (text: &'static str)
    ensures
        text@ == step_label(step),
{
    match step {
        PlanStep::Projection => "projection",
        PlanStep::Filter => "filter",
        PlanStep::Aggregate => "aggregate",
        PlanStep::Sort => "sort",
        PlanStep::Limit => "limit",
    }
}

impl PlanError {
    /// The message that the user sees, over these columns.
    pub open spec fn message_text(self, fields: Seq<Field>) -> Seq<char> {
        match self {
            PlanError::Repeated(step) => "query plan contains more than one "@ + step_label(step),
            PlanError::Projection(error) => "validate query projection: "@ + error.message_text(),
            PlanError::Filter(error) => "validate query filter: "@ + error.message_text(),
            PlanError::Sort(error) => "validate query sort: "@ + error.message_text(fields),
            PlanError::Aggregate(error) => "validate query aggregate: "@ + error.message_text(fields),
        }
    }

    /// The message that the user sees, over the columns of a dataset.
    pub fn message(&self, schema: &Schema) -> (text: String)
        ensures
            text@ == self.message_text(schema.fields@),
    {
        match self {
            PlanError::Repeated(step) => cat("query plan contains more than one ", step_text(*step)),
            PlanError::Projection(error) => cat(
                "validate query projection: ",
                error.message().as_str(),
            ),
            PlanError::Filter(error) => cat("validate query filter: ", error.message().as_str()),
            PlanError::Sort(error) => cat("validate query sort: ", error.message(schema).as_str()),
            PlanError::Aggregate(error) => cat(
                "validate query aggregate: ",
                error.message(schema).as_str(),
            ),
        }
    }
}

/// The message that the user sees for a refused query, over these columns.
pub open spec fn sql_message_text(error: SqlError, fields: Seq<Field>) -> Seq<char> {
    match error {
        SqlErrorOf::StatementCount => "SQL input must contain exactly one statement"@,
        SqlErrorOf::NotAQuery => "only SELECT queries are supported"@,
        SqlErrorOf::With => "WITH queries are not supported"@,
        SqlErrorOf::Fetch => "FETCH is not supported; use LIMIT"@,
        SqlErrorOf::LockOrPipe => "locking and pipe clauses are not supported"@,
        SqlErrorOf::LimitNumber => "LIMIT must be a non-negative integer"@,
        SqlErrorOf::Interpolate => "ORDER BY INTERPOLATE is not supported"@,
        SqlErrorOf::OrderByAll => "ORDER BY ALL is not supported"@,
        SqlErrorOf::OrderByCount => "ORDER BY supports exactly one column"@,
        SqlErrorOf::WithFill => "ORDER BY WITH FILL is not supported"@,
        SqlErrorOf::NotAColumn => "the left side of WHERE must be a column name"@,
        SqlErrorOf::NotOneSelect => "only a single SELECT is supported"@,
        SqlErrorOf::DistinctOrTop => "SELECT DISTINCT and TOP are not supported"@,
        SqlErrorOf::SelectClause => "this SELECT clause is not supported"@,
        SqlErrorOf::FromCount => "SELECT must read exactly one dataset"@,
        SqlErrorOf::Join => "JOIN is not supported"@,
        SqlErrorOf::FromForm => "FROM must name the dataset"@,
        SqlErrorOf::FromDataset => "FROM must be the single dataset named `dataset`"@,
        SqlErrorOf::StarWithGroupBy => "SELECT * cannot be combined with GROUP BY"@,
        SqlErrorOf::NoItems => "SELECT needs at least one column"@,
        SqlErrorOf::GroupByCount => "GROUP BY supports exactly one column"@,
        SqlErrorOf::StarWithColumns => "SELECT * cannot be combined with explicit columns"@,
        SqlErrorOf::ItemForm => "SELECT items must be column names or supported aggregates"@,
        SqlErrorOf::GroupByWithoutAggregate => "GROUP BY requires at least one aggregate"@,
        SqlErrorOf::ColumnsWithoutGroupBy => "aggregate SELECT cannot include ordinary columns without GROUP BY"@,
        SqlErrorOf::OtherColumns => "SELECT may include only the GROUP BY column and aggregate expressions"@,
        SqlErrorOf::AggregateModifiers => "aggregate modifiers are not supported"@,
        SqlErrorOf::AggregateParentheses => "aggregate needs parentheses"@,
        SqlErrorOf::AggregateClauses => "DISTINCT and aggregate argument clauses are not supported"@,
        SqlErrorOf::OnlyCountAll => "only COUNT may use *"@,
        SqlErrorOf::AggregateArgument => "aggregate needs exactly one column argument"@,
        SqlErrorOf::And => "AND is not supported because a PAVI query has one filter predicate"@,
        SqlErrorOf::Operator => "WHERE supports =, !=, >, >=, <, <=, or LIKE '%text%'"@,
        SqlErrorOf::LikeForm => "WHERE supports only LIKE '%text%' for contains matching"@,
        SqlErrorOf::LikeContains => "LIKE must use a contains pattern such as LIKE '%text%'"@,
        SqlErrorOf::LikeWildcards => "LIKE supports only one leading and trailing % for contains matching"@,
        SqlErrorOf::PredicateForm => "WHERE must be one supported column predicate"@,
        SqlErrorOf::Literal => "the right side of WHERE must be a string, number, or boolean literal"@,
        SqlErrorOf::OrderByAggregate => "ORDER BY aggregate results is not supported"@,
        SqlErrorOf::EmptyAggregate => "aggregate needs at least one expression"@,
        SqlErrorOf::Parse(message) => "parse SQL: "@ + message@,
        SqlErrorOf::LimitForm(rendered) => "only LIMIT <non-negative integer> is supported: "@ + rendered@,
        SqlErrorOf::UnsupportedAggregate(name) => "unsupported aggregate "@ + name@,
        SqlErrorOf::UnknownColumn(name) => "unknown SQL column '"@ + name@ + "'"@,
        SqlErrorOf::AmbiguousColumn(name) => "SQL column '"@ + name@ + "' is ambiguous when matched case-insensitively"@,
        SqlErrorOf::Plan(plan) => "validate SQL query: "@ + plan.message_text(fields),
    }
}

/// The message that the user sees for a refused query, over the columns of a
/// dataset.
pub fn sql_message(error: &SqlError, schema: &Schema) -> (text: String)
    ensures
        text@ == sql_message_text(*error, schema.fields@),
{
    match error {
        SqlErrorOf::StatementCount => "SQL input must contain exactly one statement".to_owned(),
        SqlErrorOf::NotAQuery => "only SELECT queries are supported".to_owned(),
        SqlErrorOf::With => "WITH queries are not supported".to_owned(),
        SqlErrorOf::Fetch => "FETCH is not supported; use LIMIT".to_owned(),
        SqlErrorOf::LockOrPipe => "locking and pipe clauses are not supported".to_owned(),
        SqlErrorOf::LimitNumber => "LIMIT must be a non-negative integer".to_owned(),
        SqlErrorOf::Interpolate => "ORDER BY INTERPOLATE is not supported".to_owned(),
        SqlErrorOf::OrderByAll => "ORDER BY ALL is not supported".to_owned(),
        SqlErrorOf::OrderByCount => "ORDER BY supports exactly one column".to_owned(),
        SqlErrorOf::WithFill => "ORDER BY WITH FILL is not supported".to_owned(),
        SqlErrorOf::NotAColumn => "the left side of WHERE must be a column name".to_owned(),
        SqlErrorOf::NotOneSelect => "only a single SELECT is supported".to_owned(),
        SqlErrorOf::DistinctOrTop => "SELECT DISTINCT and TOP are not supported".to_owned(),
        SqlErrorOf::SelectClause => "this SELECT clause is not supported".to_owned(),
        SqlErrorOf::FromCount => "SELECT must read exactly one dataset".to_owned(),
        SqlErrorOf::Join => "JOIN is not supported".to_owned(),
        SqlErrorOf::FromForm => "FROM must name the dataset".to_owned(),
        SqlErrorOf::FromDataset => "FROM must be the single dataset named `dataset`".to_owned(),
        SqlErrorOf::StarWithGroupBy => "SELECT * cannot be combined with GROUP BY".to_owned(),
        SqlErrorOf::NoItems => "SELECT needs at least one column".to_owned(),
        SqlErrorOf::GroupByCount => "GROUP BY supports exactly one column".to_owned(),
        SqlErrorOf::StarWithColumns => "SELECT * cannot be combined with explicit columns".to_owned(),
        SqlErrorOf::ItemForm => "SELECT items must be column names or supported aggregates".to_owned(),
        SqlErrorOf::GroupByWithoutAggregate => "GROUP BY requires at least one aggregate".to_owned(),
        SqlErrorOf::ColumnsWithoutGroupBy => "aggregate SELECT cannot include ordinary columns without GROUP BY".to_owned(),
        SqlErrorOf::OtherColumns => "SELECT may include only the GROUP BY column and aggregate expressions".to_owned(),
        SqlErrorOf::AggregateModifiers => "aggregate modifiers are not supported".to_owned(),
        SqlErrorOf::AggregateParentheses => "aggregate needs parentheses".to_owned(),
        SqlErrorOf::AggregateClauses => "DISTINCT and aggregate argument clauses are not supported".to_owned(),
        SqlErrorOf::OnlyCountAll => "only COUNT may use *".to_owned(),
        SqlErrorOf::AggregateArgument => "aggregate needs exactly one column argument".to_owned(),
        SqlErrorOf::And => "AND is not supported because a PAVI query has one filter predicate".to_owned(),
        SqlErrorOf::Operator => "WHERE supports =, !=, >, >=, <, <=, or LIKE '%text%'".to_owned(),
        SqlErrorOf::LikeForm => "WHERE supports only LIKE '%text%' for contains matching".to_owned(),
        SqlErrorOf::LikeContains => "LIKE must use a contains pattern such as LIKE '%text%'".to_owned(),
        SqlErrorOf::LikeWildcards => "LIKE supports only one leading and trailing % for contains matching".to_owned(),
        SqlErrorOf::PredicateForm => "WHERE must be one supported column predicate".to_owned(),
        SqlErrorOf::Literal => "the right side of WHERE must be a string, number, or boolean literal".to_owned(),
        SqlErrorOf::OrderByAggregate => "ORDER BY aggregate results is not supported".to_owned(),
        SqlErrorOf::EmptyAggregate => "aggregate needs at least one expression".to_owned(),
        SqlErrorOf::Parse(message) => cat("parse SQL: ", message.as_str()),
        SqlErrorOf::LimitForm(rendered) => cat("only LIMIT <non-negative integer> is supported: ", rendered.as_str()),
        SqlErrorOf::UnsupportedAggregate(name) => cat("unsupported aggregate ", name.as_str()),
        SqlErrorOf::UnknownColumn(name) => cat3("unknown SQL column '", name.as_str(), "'"),
        SqlErrorOf::AmbiguousColumn(name) => cat3("SQL column '", name.as_str(), "' is ambiguous when matched case-insensitively"),
        SqlErrorOf::Plan(plan) => cat("validate SQL query: ", plan.message(schema).as_str()),
    }
}

} // verus!
