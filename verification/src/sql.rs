//! The small SQL dialect of the explorer: one `SELECT` over one dataset.

use std::sync::Arc;

use crate::aggregate::{AggregateExpr, AggregateFunction, AggregateSpec};
use crate::collector::function_text;
use crate::filter::{row_matches, FilterExpr, FilterInput, FilterModel, FilterOp, FloatOrder};
use crate::logical::{parts_of, Filter, LogicalPlan, PlanParts, PlanStep};
use crate::metadata::DatasetMetadata;
use crate::planner::{fits_dataset, plan_fails, PlanError, Planner};
use crate::schema::{field_names, find_column, Field};
use crate::seqs::{first_index, lemma_first_index};
use crate::sort::{NullOrder, SortDirection, SortSpec};
use crate::sql_reader::{read_statements, sql_models};
use crate::sql_tree::{
    expr_model, group_model, item_model, order_model, statement_models, table_model, ArgumentOf,
    ArgumentsOf, ExprOf, FunctionOf, GroupOf, ItemOf, LikeOf, OrderOf, OrderTermOf, OrderTermsOf,
    QueryModel, SelectClauses, SelectModel, SqlOperator, SqlStatement, StatementModel, TableOf,
};
use crate::sql_words::{unanswered, unanswered_text};
use crate::text::{
    cat, chars_of, contains_text, decimal, enclosed_by, eq_ignore_ascii_case, is_digit,
    law_parse_inverts_decimal, law_trimming_undoes_padding, lemma_decimal_digits,
    lemma_text_before_irreflexive, lemma_text_before_total, occurs_at, parse_usize,
    parsed_unsigned, same_ignoring_case, text_of, text_order, trim, trimmed,
};
use vstd::prelude::*;

verus! {

/// Why a query is not accepted. `T` is `String` in an error that is held, and
/// `Seq<char>` in what it says.
#[derive(Debug)]
pub enum SqlErrorOf<T> {
    /// The text is not SQL.
    Parse(T),
    StatementCount,
    NotAQuery,
    With,
    Fetch,
    LockOrPipe,
    LimitForm(T),
    LimitNumber,
    Interpolate,
    OrderByAll,
    OrderByCount,
    WithFill,
    NotAColumn,
    NotOneSelect,
    DistinctOrTop,
    SelectClause,
    FromCount,
    Join,
    FromForm,
    FromDataset,
    StarWithGroupBy,
    NoItems,
    GroupByCount,
    StarWithColumns,
    ItemForm,
    GroupByWithoutAggregate,
    ColumnsWithoutGroupBy,
    OtherColumns,
    AggregateModifiers,
    AggregateParentheses,
    AggregateClauses,
    UnsupportedAggregate(T),
    OnlyCountAll,
    AggregateArgument,
    And,
    Operator,
    LikeForm,
    LikeContains,
    LikeWildcards,
    PredicateForm,
    Literal,
    UnknownColumn(T),
    AmbiguousColumn(T),
    OrderByAggregate,
    EmptyAggregate,
    /// The plan does not fit the dataset.
    Plan(PlanError),
}

/// What an error says.
pub open spec fn error_model(error: SqlErrorOf<String>) -> SqlErrorOf<Seq<char>> {
    match error {
        SqlErrorOf::Parse(message) => SqlErrorOf::Parse(message@),
        SqlErrorOf::StatementCount => SqlErrorOf::StatementCount,
        SqlErrorOf::NotAQuery => SqlErrorOf::NotAQuery,
        SqlErrorOf::With => SqlErrorOf::With,
        SqlErrorOf::Fetch => SqlErrorOf::Fetch,
        SqlErrorOf::LockOrPipe => SqlErrorOf::LockOrPipe,
        SqlErrorOf::LimitForm(rendered) => SqlErrorOf::LimitForm(rendered@),
        SqlErrorOf::LimitNumber => SqlErrorOf::LimitNumber,
        SqlErrorOf::Interpolate => SqlErrorOf::Interpolate,
        SqlErrorOf::OrderByAll => SqlErrorOf::OrderByAll,
        SqlErrorOf::OrderByCount => SqlErrorOf::OrderByCount,
        SqlErrorOf::WithFill => SqlErrorOf::WithFill,
        SqlErrorOf::NotAColumn => SqlErrorOf::NotAColumn,
        SqlErrorOf::NotOneSelect => SqlErrorOf::NotOneSelect,
        SqlErrorOf::DistinctOrTop => SqlErrorOf::DistinctOrTop,
        SqlErrorOf::SelectClause => SqlErrorOf::SelectClause,
        SqlErrorOf::FromCount => SqlErrorOf::FromCount,
        SqlErrorOf::Join => SqlErrorOf::Join,
        SqlErrorOf::FromForm => SqlErrorOf::FromForm,
        SqlErrorOf::FromDataset => SqlErrorOf::FromDataset,
        SqlErrorOf::StarWithGroupBy => SqlErrorOf::StarWithGroupBy,
        SqlErrorOf::NoItems => SqlErrorOf::NoItems,
        SqlErrorOf::GroupByCount => SqlErrorOf::GroupByCount,
        SqlErrorOf::StarWithColumns => SqlErrorOf::StarWithColumns,
        SqlErrorOf::ItemForm => SqlErrorOf::ItemForm,
        SqlErrorOf::GroupByWithoutAggregate => SqlErrorOf::GroupByWithoutAggregate,
        SqlErrorOf::ColumnsWithoutGroupBy => SqlErrorOf::ColumnsWithoutGroupBy,
        SqlErrorOf::OtherColumns => SqlErrorOf::OtherColumns,
        SqlErrorOf::AggregateModifiers => SqlErrorOf::AggregateModifiers,
        SqlErrorOf::AggregateParentheses => SqlErrorOf::AggregateParentheses,
        SqlErrorOf::AggregateClauses => SqlErrorOf::AggregateClauses,
        SqlErrorOf::UnsupportedAggregate(name) => SqlErrorOf::UnsupportedAggregate(name@),
        SqlErrorOf::OnlyCountAll => SqlErrorOf::OnlyCountAll,
        SqlErrorOf::AggregateArgument => SqlErrorOf::AggregateArgument,
        SqlErrorOf::And => SqlErrorOf::And,
        SqlErrorOf::Operator => SqlErrorOf::Operator,
        SqlErrorOf::LikeForm => SqlErrorOf::LikeForm,
        SqlErrorOf::LikeContains => SqlErrorOf::LikeContains,
        SqlErrorOf::LikeWildcards => SqlErrorOf::LikeWildcards,
        SqlErrorOf::PredicateForm => SqlErrorOf::PredicateForm,
        SqlErrorOf::Literal => SqlErrorOf::Literal,
        SqlErrorOf::UnknownColumn(name) => SqlErrorOf::UnknownColumn(name@),
        SqlErrorOf::AmbiguousColumn(name) => SqlErrorOf::AmbiguousColumn(name@),
        SqlErrorOf::OrderByAggregate => SqlErrorOf::OrderByAggregate,
        SqlErrorOf::EmptyAggregate => SqlErrorOf::EmptyAggregate,
        SqlErrorOf::Plan(error) => SqlErrorOf::Plan(error),
    }
}

/// What a query selects.
#[derive(Debug, PartialEq, Eq)]
pub enum SqlProjection {
    All,
    Columns(Vec<String>),
    Aggregates(SqlAggregate),
}

/// Aggregates, and the column that they are grouped by.
#[derive(Debug, PartialEq, Eq)]
pub struct SqlAggregate {
    pub group_by: Option<String>,
    pub expressions: Vec<SqlAggregateExpr>,
}

/// One aggregate; without a column it aggregates whole rows.
#[derive(Debug, PartialEq, Eq)]
pub struct SqlAggregateExpr {
    pub function: AggregateFunction,
    pub column: Option<String>,
}

/// A condition on one column.
#[derive(Debug, PartialEq, Eq)]
pub struct SqlPredicate {
    pub column: String,
    pub op: FilterOp,
    pub value: String,
}

/// An order by one column.
#[derive(Debug, PartialEq, Eq)]
pub struct SqlSort {
    pub column: String,
    pub direction: SortDirection,
    pub nulls: NullOrder,
}

/// The deliberately small SQL shape that the explorer accepts.
#[derive(Debug, PartialEq, Eq)]
pub struct SqlAst {
    projection: SqlProjection,
    predicate: Option<SqlPredicate>,
    sort: Option<SqlSort>,
    limit: Option<usize>,
}

/// What an aggregate says: its function and its column.
pub struct AggregateModel {
    pub function: AggregateFunction,
    pub column: Option<Seq<char>>,
}

/// What a projection says.
pub enum ProjectionModel {
    All,
    Columns(Seq<Seq<char>>),
    Aggregates(Option<Seq<char>>, Seq<AggregateModel>),
}

/// What an order says.
pub struct SortModel {
    pub column: Seq<char>,
    pub direction: SortDirection,
    pub nulls: NullOrder,
}

/// What a query says.
pub struct SqlModel {
    pub projection: ProjectionModel,
    pub predicate: Option<FilterModel>,
    pub sort: Option<SortModel>,
    pub limit: Option<usize>,
}

/// What a text that may be missing says.
pub open spec fn text_model(text: Option<String>) -> Option<Seq<char>> {
    match text {
        Some(text) => Some(text@),
        None => None,
    }
}

/// What a list of texts says.
pub open spec fn texts_model(texts: Seq<String>) -> Seq<Seq<char>> {
    texts.map_values(|text: String| text@)
}

/// What a list of aggregates says.
pub open spec fn aggregates_model(expressions: Seq<SqlAggregateExpr>) -> Seq<AggregateModel> {
    expressions.map_values(|expression: SqlAggregateExpr| expression@)
}

impl View for SqlAggregateExpr {
    type V = AggregateModel;

    open spec fn view(&self) -> AggregateModel {
        AggregateModel { function: self.function, column: text_model(self.column) }
    }
}

impl View for SqlProjection {
    type V = ProjectionModel;

    open spec fn view(&self) -> ProjectionModel {
        match self {
            SqlProjection::All => ProjectionModel::All,
            SqlProjection::Columns(columns) => ProjectionModel::Columns(texts_model(columns@)),
            SqlProjection::Aggregates(aggregate) => ProjectionModel::Aggregates(
                text_model(aggregate.group_by),
                aggregates_model(aggregate.expressions@),
            ),
        }
    }
}

impl View for SqlPredicate {
    type V = FilterModel;

    open spec fn view(&self) -> FilterModel {
        FilterModel { column: self.column@, op: self.op, value: self.value@ }
    }
}

impl View for SqlSort {
    type V = SortModel;

    open spec fn view(&self) -> SortModel {
        SortModel { column: self.column@, direction: self.direction, nulls: self.nulls }
    }
}

impl View for SqlAst {
    type V = SqlModel;

    closed spec fn view(&self) -> SqlModel {
        SqlModel {
            projection: self.projection@,
            predicate: match self.predicate {
                Some(predicate) => Some(predicate@),
                None => None,
            },
            sort: match self.sort {
                Some(sort) => Some(sort@),
                None => None,
            },
            limit: self.limit,
        }
    }
}

// ---------------------------------------------------------------------------
// Clauses
// ---------------------------------------------------------------------------

/// The name that an expression is.
pub open spec fn column_name(expr: ExprOf<Seq<char>>) -> Result<Seq<char>, SqlErrorOf<Seq<char>>> {
    match expr {
        ExprOf::Identifier(name) => Ok(name),
        _ => Err(SqlErrorOf::NotAColumn),
    }
}

/// `s` with every pair of single quotes replaced by one.
pub open spec fn undoubled(s: Seq<char>) -> Seq<char>
    decreases s.len(),
{
    if s.len() == 0 {
        s
    } else if s.len() >= 2 && s[0] == '\'' && s[1] == '\'' {
        seq!['\''] + undoubled(s.skip(2))
    } else {
        seq![s[0]] + undoubled(s.skip(1))
    }
}

/// The value of a literal as SQL writes it.
pub open spec fn literal_value(literal: Seq<char>) -> Seq<char> {
    if enclosed_by(literal, '\'') {
        undoubled(literal.subrange(1, literal.len() - 1))
    } else {
        literal
    }
}

/// The value that an expression writes: a literal with any signs before it.
pub open spec fn literal_of(expr: ExprOf<Seq<char>>) -> Result<Seq<char>, SqlErrorOf<Seq<char>>>
    decreases expr,
{
    match expr {
        ExprOf::Value(literal) => Ok(literal_value(literal)),
        ExprOf::Negative(inner) => match literal_of(*inner) {
            Ok(value) => Ok("-"@ + value),
            Err(error) => Err(error),
        },
        ExprOf::Positive(inner) => literal_of(*inner),
        _ => Err(SqlErrorOf::Literal),
    }
}

/// The filter operator of a comparison.
pub open spec fn filter_op(op: SqlOperator) -> Option<FilterOp> {
    match op {
        SqlOperator::Eq => Some(FilterOp::Eq),
        SqlOperator::NotEq => Some(FilterOp::Ne),
        SqlOperator::Gt => Some(FilterOp::Gt),
        SqlOperator::GtEq => Some(FilterOp::Ge),
        SqlOperator::Lt => Some(FilterOp::Lt),
        SqlOperator::LtEq => Some(FilterOp::Le),
        _ => None,
    }
}

/// The condition that a `WHERE` clause states.
pub open spec fn predicate_of(expr: ExprOf<Seq<char>>) -> Result<
    FilterModel,
    SqlErrorOf<Seq<char>>,
> {
    match expr {
        ExprOf::Binary(left, op, right) => if op == SqlOperator::And {
            Err(SqlErrorOf::And)
        } else {
            match column_name(*left) {
                Err(error) => Err(error),
                Ok(column) => match filter_op(op) {
                    None => Err(SqlErrorOf::Operator),
                    Some(op) => match literal_of(*right) {
                        Err(error) => Err(error),
                        Ok(value) => Ok(FilterModel { column, op, value }),
                    },
                },
            }
        },
        ExprOf::Like(like) => if like.negated || like.any {
            Err(SqlErrorOf::LikeForm)
        } else {
            match literal_of(*like.pattern) {
                Err(error) => Err(error),
                Ok(pattern) => if !enclosed_by(pattern, '%') {
                    Err(SqlErrorOf::LikeContains)
                } else {
                    let value = pattern.subrange(1, pattern.len() - 1);
                    if value.contains('%') || value.contains('_') {
                        Err(SqlErrorOf::LikeWildcards)
                    } else {
                        match column_name(*like.expr) {
                            Err(error) => Err(error),
                            Ok(column) => Ok(
                                FilterModel { column, op: FilterOp::Contains, value },
                            ),
                        }
                    }
                },
            }
        },
        _ => Err(SqlErrorOf::PredicateForm),
    }
}

/// The row limit that a rendered `LIMIT` clause states.
pub open spec fn limit_of(limit: Option<Seq<char>>) -> Result<
    Option<usize>,
    SqlErrorOf<Seq<char>>,
> {
    match limit {
        None => Ok(None),
        Some(rendered) => {
            let text = trimmed(rendered);
            if !occurs_at(text, "LIMIT"@, 0) {
                Err(SqlErrorOf::LimitForm(text))
            } else {
                match parsed_unsigned(trimmed(text.skip("LIMIT"@.len() as int)), usize::MAX as nat) {
                    Some(rows) => Ok(Some(rows as usize)),
                    None => Err(SqlErrorOf::LimitNumber),
                }
            }
        },
    }
}

/// The order that an `ORDER BY` clause states.
pub open spec fn sort_of(order: Option<OrderOf<Seq<char>>>) -> Result<
    Option<SortModel>,
    SqlErrorOf<Seq<char>>,
> {
    match order {
        None => Ok(None),
        Some(order) => if order.interpolated {
            Err(SqlErrorOf::Interpolate)
        } else {
            match order.terms {
                OrderTermsOf::All => Err(SqlErrorOf::OrderByAll),
                OrderTermsOf::Terms(count, first) => if count != 1 || first is None {
                    Err(SqlErrorOf::OrderByCount)
                } else if first->0.has_fill {
                    Err(SqlErrorOf::WithFill)
                } else {
                    match column_name(first->0.expr) {
                        Err(error) => Err(error),
                        Ok(column) => Ok(
                            Some(
                                SortModel {
                                    column,
                                    direction: if first->0.ascending == Some(false) {
                                        SortDirection::Descending
                                    } else {
                                        SortDirection::Ascending
                                    },
                                    nulls: if first->0.nulls_first == Some(true) {
                                        NullOrder::First
                                    } else {
                                        NullOrder::Last
                                    },
                                },
                            ),
                        ),
                    }
                },
            }
        },
    }
}

/// What is wrong with the clauses of a `SELECT`.
pub open spec fn clauses_fault(clauses: SelectClauses) -> Option<SqlErrorOf<Seq<char>>> {
    if clauses.distinct || clauses.top {
        Some(SqlErrorOf::DistinctOrTop)
    } else if clauses.into || clauses.lateral_views != 0 || clauses.prewhere || clauses.cluster_by
        != 0 || clauses.distribute_by != 0 || clauses.sort_by != 0 || clauses.having
        || clauses.named_windows != 0 || clauses.qualify || clauses.connect_by != 0 {
        Some(SqlErrorOf::SelectClause)
    } else {
        None
    }
}

/// What is wrong with the `FROM` clause.
pub open spec fn from_fault(tables: Seq<TableOf<Seq<char>>>) -> Option<SqlErrorOf<Seq<char>>> {
    if tables.len() != 1 {
        Some(SqlErrorOf::FromCount)
    } else if tables[0].joins != 0 {
        Some(SqlErrorOf::Join)
    } else {
        match tables[0].named {
            None => Some(SqlErrorOf::FromForm),
            Some((name, alias)) => if alias || !same_ignoring_case(name, "dataset"@) {
                Some(SqlErrorOf::FromDataset)
            } else {
                None
            },
        }
    }
}

/// The column that a `GROUP BY` clause names.
pub open spec fn grouping_of(group: GroupOf<Seq<char>>) -> Result<
    Option<Seq<char>>,
    SqlErrorOf<Seq<char>>,
> {
    match group {
        GroupOf::Expressions(count, first, modifiers) => if modifiers != 0 {
            Err(SqlErrorOf::GroupByCount)
        } else if count == 0 {
            Ok(None)
        } else if count == 1 && first is Some {
            match column_name(first->0) {
                Ok(column) => Ok(Some(column)),
                Err(error) => Err(error),
            }
        } else {
            Err(SqlErrorOf::GroupByCount)
        },
        GroupOf::All => Err(SqlErrorOf::GroupByCount),
    }
}

/// `c` with an ASCII small letter replaced by its capital.
pub open spec fn ascii_upper(c: char) -> char {
    if 'a' as int <= c as int <= 'z' as int {
        (c as int - 32) as char
    } else {
        c
    }
}

/// `s` in ASCII capitals.
pub open spec fn upper(s: Seq<char>) -> Seq<char> {
    s.map_values(|c: char| ascii_upper(c))
}

/// The aggregate function of this name.
pub open spec fn function_of(name: Seq<char>) -> Option<AggregateFunction> {
    if upper(name) == "COUNT"@ {
        Some(AggregateFunction::Count)
    } else if upper(name) == "SUM"@ {
        Some(AggregateFunction::Sum)
    } else if upper(name) == "AVG"@ {
        Some(AggregateFunction::Avg)
    } else if upper(name) == "MIN"@ {
        Some(AggregateFunction::Min)
    } else if upper(name) == "MAX"@ {
        Some(AggregateFunction::Max)
    } else {
        None
    }
}

/// The aggregate that a function call states.
pub open spec fn aggregate_of(function: FunctionOf<Seq<char>>) -> Result<
    AggregateModel,
    SqlErrorOf<Seq<char>>,
> {
    if function.odbc_syntax || function.has_parameters || function.has_filter
        || function.has_null_treatment || function.has_over || function.within_group != 0 {
        Err(SqlErrorOf::AggregateModifiers)
    } else {
        match function.arguments {
            ArgumentsOf::NoList => Err(SqlErrorOf::AggregateParentheses),
            ArgumentsOf::List(list) => if list.has_duplicate_treatment || list.clauses != 0 {
                Err(SqlErrorOf::AggregateClauses)
            } else {
                match function_of(function.name) {
                    None => Err(SqlErrorOf::UnsupportedAggregate(upper(function.name))),
                    Some(aggregate) => if list.count != 1 || list.first is None {
                        Err(SqlErrorOf::AggregateArgument)
                    } else {
                        match *(list.first->0) {
                            ArgumentOf::Wildcard => if aggregate == AggregateFunction::Count {
                                Ok(AggregateModel { function: aggregate, column: None })
                            } else {
                                Err(SqlErrorOf::OnlyCountAll)
                            },
                            ArgumentOf::Expr(expr) => match column_name(expr) {
                                Ok(column) => Ok(
                                    AggregateModel { function: aggregate, column: Some(column) },
                                ),
                                Err(error) => Err(error),
                            },
                            ArgumentOf::Other => Err(SqlErrorOf::AggregateArgument),
                        }
                    },
                }
            },
        }
    }
}

/// The columns and the aggregates among the items.
pub open spec fn items_of(items: Seq<ItemOf<Seq<char>>>) -> Result<
    (Seq<Seq<char>>, Seq<AggregateModel>),
    SqlErrorOf<Seq<char>>,
>
    decreases items.len(),
{
    if items.len() == 0 {
        Ok((Seq::empty(), Seq::empty()))
    } else {
        match items_of(items.drop_last()) {
            Err(error) => Err(error),
            Ok((columns, aggregates)) => match items.last() {
                ItemOf::Expr(ExprOf::Identifier(name)) => Ok((columns.push(name), aggregates)),
                ItemOf::Expr(ExprOf::Function(function)) => match aggregate_of(function) {
                    Ok(aggregate) => Ok((columns, aggregates.push(aggregate))),
                    Err(error) => Err(error),
                },
                ItemOf::Wildcard => Err(SqlErrorOf::StarWithColumns),
                ItemOf::QualifiedWildcard => Err(SqlErrorOf::StarWithColumns),
                _ => Err(SqlErrorOf::ItemForm),
            },
        }
    }
}

/// The projection of these columns and aggregates, given the grouping column.
pub open spec fn combined(
    columns: Seq<Seq<char>>,
    aggregates: Seq<AggregateModel>,
    grouping: Option<Seq<char>>,
) -> Result<ProjectionModel, SqlErrorOf<Seq<char>>> {
    if aggregates.len() == 0 {
        if grouping is Some {
            Err(SqlErrorOf::GroupByWithoutAggregate)
        } else {
            Ok(ProjectionModel::Columns(columns))
        }
    } else if grouping is None && columns.len() > 0 {
        Err(SqlErrorOf::ColumnsWithoutGroupBy)
    } else {
        let group = if grouping is Some && grouping->0.len() > 0 {
            grouping
        } else {
            None
        };
        let fits = match group {
            None => columns.len() == 0,
            Some(name) => columns.len() == 1 && same_ignoring_case(columns[0], name),
        };
        if fits {
            Ok(ProjectionModel::Aggregates(group, aggregates))
        } else {
            Err(SqlErrorOf::OtherColumns)
        }
    }
}

/// The projection that a `SELECT` list states.
pub open spec fn projection_of(
    items: Seq<ItemOf<Seq<char>>>,
    group: GroupOf<Seq<char>>,
) -> Result<ProjectionModel, SqlErrorOf<Seq<char>>> {
    if items.len() == 1 && items[0] is Wildcard {
        match group {
            GroupOf::Expressions(count, _, modifiers) => if count == 0 && modifiers == 0 {
                Ok(ProjectionModel::All)
            } else {
                Err(SqlErrorOf::StarWithGroupBy)
            },
            GroupOf::All => Err(SqlErrorOf::StarWithGroupBy),
        }
    } else if items.len() == 0 {
        Err(SqlErrorOf::NoItems)
    } else {
        match grouping_of(group) {
            Err(error) => Err(error),
            Ok(grouping) => match items_of(items) {
                Err(error) => Err(error),
                Ok((columns, aggregates)) => combined(columns, aggregates, grouping),
            },
        }
    }
}

/// What a query with this `SELECT` says.
pub open spec fn select_meaning(
    select: SelectModel,
    sort: Option<SortModel>,
    limit: Option<usize>,
) -> Result<SqlModel, SqlErrorOf<Seq<char>>> {
    if let Some(error) = clauses_fault(select.clauses) {
        Err(error)
    } else if let Some(error) = from_fault(select.tables) {
        Err(error)
    } else {
        match projection_of(select.items, select.group) {
            Err(error) => Err(error),
            Ok(projection) => match select.selection {
                None => Ok(SqlModel { projection, predicate: None, sort, limit }),
                Some(expr) => match predicate_of(expr) {
                    Err(error) => Err(error),
                    Ok(predicate) => Ok(
                        SqlModel { projection, predicate: Some(predicate), sort, limit },
                    ),
                },
            },
        }
    }
}

/// What a query says, or why it is not accepted.
pub open spec fn query_meaning(query: QueryModel) -> Result<SqlModel, SqlErrorOf<Seq<char>>> {
    if query.clauses.with {
        Err(SqlErrorOf::With)
    } else if query.clauses.fetch {
        Err(SqlErrorOf::Fetch)
    } else if query.clauses.locks != 0 || query.clauses.for_clause || query.clauses.pipe_operators
        != 0 {
        Err(SqlErrorOf::LockOrPipe)
    } else {
        match limit_of(query.limit) {
            Err(error) => Err(error),
            Ok(limit) => match sort_of(query.order) {
                Err(error) => Err(error),
                Ok(sort) => match query.select {
                    None => Err(SqlErrorOf::NotOneSelect),
                    Some(select) => select_meaning(select, sort, limit),
                },
            },
        }
    }
}

/// What a text with these statements says, or why it is not accepted.
pub open spec fn statements_meaning(statements: Seq<StatementModel>) -> Result<
    SqlModel,
    SqlErrorOf<Seq<char>>,
> {
    if statements.len() != 1 {
        Err(SqlErrorOf::StatementCount)
    } else {
        match statements[0] {
            StatementModel::Query(query) => query_meaning(query),
            StatementModel::Other => Err(SqlErrorOf::NotAQuery),
        }
    }
}


// ---------------------------------------------------------------------------
// Reading the clauses
// ---------------------------------------------------------------------------

/// An error that is held.
pub type SqlError = SqlErrorOf<String>;

/// An error as a mathematical value.
pub type SqlErrorModel = SqlErrorOf<Seq<char>>;

fn parse_column(expr: &ExprOf<String>) -> (result: Result<String, SqlError>)
    ensures
        match result {
            Ok(name) => column_name(expr_model(*expr)) == Ok::<Seq<char>, SqlErrorModel>(name@),
            Err(error) => column_name(expr_model(*expr)) == Err::<Seq<char>, SqlErrorModel>(
                error_model(error),
            ),
        },
{
    match expr {
        ExprOf::Identifier(name) => Ok(name.clone()),
        _ => Err(SqlErrorOf::NotAColumn),
    }
}

fn unquote_sql_literal(literal: &str) -> (value: String)
    ensures
        value@ == literal_value(literal@),
{
    let chars = chars_of(literal);
    let n: usize = chars.len();
    if !(n >= 2 && chars[0] == '\'' && chars[n - 1] == '\'') {
        return literal.to_owned();
    }
    let mut value = String::new();
    let ghost inner = literal@.subrange(1, n - 1);
    let mut i: usize = 1;
    assert(inner.skip(0) =~= inner);
    while i < n - 1
        invariant
            chars@ == literal@,
            n == chars@.len(),
            n >= 2,
            inner == literal@.subrange(1, n - 1),
            1 <= i <= n - 1,
            value@ + undoubled(inner.skip(i - 1)) == undoubled(inner),
        decreases n - i,
    {
        let ghost rest = inner.skip(i - 1);
        let ghost before = value@;
        assert(rest[0] == chars@[i as int]);
        if i + 1 < n - 1 && chars[i] == '\'' && chars[i + 1] == '\'' {
            assert(rest[1] == chars@[i + 1]);
            assert(rest.skip(2) =~= inner.skip(i + 1));
            value.push('\'');
            assert(value@ + undoubled(inner.skip(i + 1)) =~= before + (seq!['\''] + undoubled(
                rest.skip(2),
            )));
            i = i + 2;
        } else {
            assert(rest.len() >= 2 ==> rest[1] == chars@[i + 1]);
            assert(rest.skip(1) =~= inner.skip(i as int));
            value.push(chars[i]);
            assert(value@ + undoubled(inner.skip(i as int)) =~= before + (seq![rest[0]]
                + undoubled(rest.skip(1))));
            i = i + 1;
        }
    }
    assert(inner.skip(i - 1) =~= Seq::<char>::empty());
    assert(value@ =~= undoubled(inner));
    value
}

fn parse_literal(expr: &ExprOf<String>) -> (result: Result<String, SqlError>)
    ensures
        match result {
            Ok(value) => literal_of(expr_model(*expr)) == Ok::<Seq<char>, SqlErrorModel>(value@),
            Err(error) => literal_of(expr_model(*expr)) == Err::<Seq<char>, SqlErrorModel>(
                error_model(error),
            ),
        },
    decreases expr,
{
    match expr {
        ExprOf::Value(literal) => Ok(unquote_sql_literal(literal.as_str())),
        ExprOf::Negative(inner) => match parse_literal(inner) {
            Ok(value) => Ok(cat("-", value.as_str())),
            Err(error) => Err(error),
        },
        ExprOf::Positive(inner) => parse_literal(inner),
        _ => Err(SqlErrorOf::Literal),
    }
}

fn contains_char(chars: &Vec<char>, from: usize, to: usize, wanted: char) -> (yes: bool)
    requires
        from <= to <= chars@.len(),
    ensures
        yes == chars@.subrange(from as int, to as int).contains(wanted),
{
    let ghost part = chars@.subrange(from as int, to as int);
    let mut i: usize = from;
    while i < to
        invariant
            from <= i <= to <= chars@.len(),
            part == chars@.subrange(from as int, to as int),
            forall|k: int| 0 <= k < i - from ==> part[k] != wanted,
        decreases to - i,
    {
        assert(part[i - from] == chars@[i as int]);
        if chars[i] == wanted {
            return true;
        }
        i = i + 1;
    }
    false
}

fn parse_predicate(expr: &ExprOf<String>) -> (result: Result<SqlPredicate, SqlError>)
    ensures
        match result {
            Ok(predicate) => predicate_of(expr_model(*expr)) == Ok::<FilterModel, SqlErrorModel>(
                predicate@,
            ),
            Err(error) => predicate_of(expr_model(*expr)) == Err::<FilterModel, SqlErrorModel>(
                error_model(error),
            ),
        },
{
    match expr {
        ExprOf::Binary(left, op, right) => {
            if *op == SqlOperator::And {
                return Err(SqlErrorOf::And);
            }
            let column = match parse_column(left) {
                Ok(column) => column,
                Err(error) => return Err(error),
            };
            let op = match op {
                SqlOperator::Eq => FilterOp::Eq,
                SqlOperator::NotEq => FilterOp::Ne,
                SqlOperator::Gt => FilterOp::Gt,
                SqlOperator::GtEq => FilterOp::Ge,
                SqlOperator::Lt => FilterOp::Lt,
                SqlOperator::LtEq => FilterOp::Le,
                _ => return Err(SqlErrorOf::Operator),
            };
            match parse_literal(right) {
                Ok(value) => Ok(SqlPredicate { column, op, value }),
                Err(error) => Err(error),
            }
        },
        ExprOf::Like(like) => {
            if like.negated || like.any {
                return Err(SqlErrorOf::LikeForm);
            }
            let pattern = match parse_literal(&like.pattern) {
                Ok(pattern) => pattern,
                Err(error) => return Err(error),
            };
            let chars = chars_of(pattern.as_str());
            let n: usize = chars.len();
            if !(n >= 2 && chars[0] == '%' && chars[n - 1] == '%') {
                return Err(SqlErrorOf::LikeContains);
            }
            if contains_char(&chars, 1, n - 1, '%') || contains_char(&chars, 1, n - 1, '_') {
                return Err(SqlErrorOf::LikeWildcards);
            }
            match parse_column(&like.expr) {
                Ok(column) => Ok(
                    SqlPredicate {
                        column,
                        op: FilterOp::Contains,
                        value: text_of(&chars, 1, n - 1),
                    },
                ),
                Err(error) => Err(error),
            }
        },
        _ => Err(SqlErrorOf::PredicateForm),
    }
}

fn parse_limit(limit: &Option<String>) -> (result: Result<Option<usize>, SqlError>)
    ensures
        match result {
            Ok(rows) => limit_of(text_model(*limit)) == Ok::<Option<usize>, SqlErrorModel>(rows),
            Err(error) => limit_of(text_model(*limit)) == Err::<Option<usize>, SqlErrorModel>(
                error_model(error),
            ),
        },
{
    let rendered = match limit {
        None => return Ok(None),
        Some(rendered) => trim(rendered.as_str()),
    };
    let chars = chars_of(rendered.as_str());
    let keyword = chars_of("LIMIT");
    if keyword.len() > chars.len() || !crate::text::stands_at(&chars, &keyword, 0) {
        return Err(SqlErrorOf::LimitForm(rendered));
    }
    let rest = text_of(&chars, keyword.len(), chars.len());
    assert(rest@ =~= rendered@.skip("LIMIT"@.len() as int));
    match parse_usize(trim(rest.as_str()).as_str()) {
        Some(rows) => Ok(Some(rows)),
        None => Err(SqlErrorOf::LimitNumber),
    }
}

/// What an `ORDER BY` clause that may be missing says.
pub open spec fn optional_order_model(order: Option<OrderOf<String>>) -> Option<
    OrderOf<Seq<char>>,
> {
    match order {
        Some(order) => Some(order_model(order)),
        None => None,
    }
}

/// What an order that may be missing says.
pub open spec fn sort_model(sort: Option<SqlSort>) -> Option<SortModel> {
    match sort {
        Some(sort) => Some(sort@),
        None => None,
    }
}

fn parse_order_by(order: &Option<OrderOf<String>>) -> (result: Result<Option<SqlSort>, SqlError>)
    ensures
        match result {
            Ok(sort) => sort_of(optional_order_model(*order)) == Ok::<
                Option<SortModel>,
                SqlErrorModel,
            >(sort_model(sort)),
            Err(error) => sort_of(optional_order_model(*order)) == Err::<
                Option<SortModel>,
                SqlErrorModel,
            >(error_model(error)),
        },
{
    let order = match order {
        None => return Ok(None),
        Some(order) => order,
    };
    if order.interpolated {
        return Err(SqlErrorOf::Interpolate);
    }
    match &order.terms {
        OrderTermsOf::All => Err(SqlErrorOf::OrderByAll),
        OrderTermsOf::Terms(count, first) => {
            if *count != 1 {
                return Err(SqlErrorOf::OrderByCount);
            }
            match first {
                None => Err(SqlErrorOf::OrderByCount),
                Some(term) => {
                    if term.has_fill {
                        return Err(SqlErrorOf::WithFill);
                    }
                    let column = match parse_column(&term.expr) {
                        Ok(column) => column,
                        Err(error) => return Err(error),
                    };
                    let direction = match term.ascending {
                        Some(false) => SortDirection::Descending,
                        _ => SortDirection::Ascending,
                    };
                    let nulls = match term.nulls_first {
                        Some(true) => NullOrder::First,
                        _ => NullOrder::Last,
                    };
                    Ok(Some(SqlSort { column, direction, nulls }))
                },
            }
        },
    }
}

fn reject_select_clauses(clauses: SelectClauses) -> (result: Result<(), SqlError>)
    ensures
        match result {
            Ok(_) => clauses_fault(clauses) is None,
            Err(error) => clauses_fault(clauses) == Some(error_model(error)),
        },
{
    if clauses.distinct || clauses.top {
        return Err(SqlErrorOf::DistinctOrTop);
    }
    if clauses.into || clauses.lateral_views != 0 || clauses.prewhere || clauses.cluster_by != 0
        || clauses.distribute_by != 0 || clauses.sort_by != 0 || clauses.having
        || clauses.named_windows != 0 || clauses.qualify || clauses.connect_by != 0 {
        return Err(SqlErrorOf::SelectClause);
    }
    Ok(())
}

fn validate_from(tables: &Vec<TableOf<String>>) -> (result: Result<(), SqlError>)
    ensures
        match result {
            Ok(_) => from_fault(tables@.map_values(|table: TableOf<String>| table_model(table))) is None,
            Err(error) => from_fault(
                tables@.map_values(|table: TableOf<String>| table_model(table)),
            ) == Some(error_model(error)),
        },
{
    if tables.len() != 1 {
        return Err(SqlErrorOf::FromCount);
    }
    let table = &tables[0];
    if table.joins != 0 {
        return Err(SqlErrorOf::Join);
    }
    match &table.named {
        None => Err(SqlErrorOf::FromForm),
        Some((name, alias)) => {
            if *alias || !eq_ignore_ascii_case(name.as_str(), "dataset") {
                Err(SqlErrorOf::FromDataset)
            } else {
                Ok(())
            }
        },
    }
}

fn parse_group_by(group: &GroupOf<String>) -> (result: Result<Option<String>, SqlError>)
    ensures
        match result {
            Ok(column) => grouping_of(group_model(*group)) == Ok::<Option<Seq<char>>, SqlErrorModel>(
                text_model(column),
            ),
            Err(error) => grouping_of(group_model(*group)) == Err::<
                Option<Seq<char>>,
                SqlErrorModel,
            >(error_model(error)),
        },
{
    match group {
        GroupOf::All => Err(SqlErrorOf::GroupByCount),
        GroupOf::Expressions(count, first, modifiers) => {
            if *modifiers != 0 {
                return Err(SqlErrorOf::GroupByCount);
            }
            if *count == 0 {
                return Ok(None);
            }
            if *count != 1 {
                return Err(SqlErrorOf::GroupByCount);
            }
            match first {
                None => Err(SqlErrorOf::GroupByCount),
                Some(expr) => match parse_column(expr) {
                    Ok(column) => Ok(Some(column)),
                    Err(error) => Err(error),
                },
            }
        },
    }
}

fn to_ascii_uppercase(text: &str) -> (capitals: String)
    ensures
        capitals@ == upper(text@),
{
    let chars = chars_of(text);
    let mut capitals = String::new();
    let mut i: usize = 0;
    while i < chars.len()
        invariant
            i <= chars@.len(),
            capitals@ == upper(chars@.take(i as int)),
        decreases chars@.len() - i,
    {
        let c = capital(chars[i]);
        capitals.push(c);
        assert(capitals@ =~= upper(chars@.take(i + 1)));
        i = i + 1;
    }
    assert(chars@.take(i as int) =~= chars@);
    capitals
}

fn capital(c: char) -> (capital: char)
    ensures
        capital == ascii_upper(c),
{
    match c {
        'a' => 'A',
        'b' => 'B',
        'c' => 'C',
        'd' => 'D',
        'e' => 'E',
        'f' => 'F',
        'g' => 'G',
        'h' => 'H',
        'i' => 'I',
        'j' => 'J',
        'k' => 'K',
        'l' => 'L',
        'm' => 'M',
        'n' => 'N',
        'o' => 'O',
        'p' => 'P',
        'q' => 'Q',
        'r' => 'R',
        's' => 'S',
        't' => 'T',
        'u' => 'U',
        'v' => 'V',
        'w' => 'W',
        'x' => 'X',
        'y' => 'Y',
        'z' => 'Z',
        _ => c,
    }
}

fn parse_aggregate(function: &FunctionOf<String>) -> (result: Result<SqlAggregateExpr, SqlError>)
    ensures
        match result {
            Ok(aggregate) => aggregate_of(
                expr_model(ExprOf::Function(*function))->Function_0,
            ) == Ok::<AggregateModel, SqlErrorModel>(aggregate@),
            Err(error) => aggregate_of(expr_model(ExprOf::Function(*function))->Function_0) == Err::<
                AggregateModel,
                SqlErrorModel,
            >(error_model(error)),
        },
{
    if function.odbc_syntax || function.has_parameters || function.has_filter
        || function.has_null_treatment || function.has_over || function.within_group != 0 {
        return Err(SqlErrorOf::AggregateModifiers);
    }
    let list = match &function.arguments {
        ArgumentsOf::NoList => return Err(SqlErrorOf::AggregateParentheses),
        ArgumentsOf::List(list) => list,
    };
    if list.has_duplicate_treatment || list.clauses != 0 {
        return Err(SqlErrorOf::AggregateClauses);
    }
    let name = to_ascii_uppercase(function.name.as_str());
    let aggregate = if crate::text::same_text(name.as_str(), "COUNT") {
        AggregateFunction::Count
    } else if crate::text::same_text(name.as_str(), "SUM") {
        AggregateFunction::Sum
    } else if crate::text::same_text(name.as_str(), "AVG") {
        AggregateFunction::Avg
    } else if crate::text::same_text(name.as_str(), "MIN") {
        AggregateFunction::Min
    } else if crate::text::same_text(name.as_str(), "MAX") {
        AggregateFunction::Max
    } else {
        return Err(SqlErrorOf::UnsupportedAggregate(name));
    };
    if list.count != 1 {
        return Err(SqlErrorOf::AggregateArgument);
    }
    match &list.first {
        None => Err(SqlErrorOf::AggregateArgument),
        Some(argument) => match &**argument {
            ArgumentOf::Wildcard => {
                if aggregate == AggregateFunction::Count {
                    Ok(SqlAggregateExpr { function: aggregate, column: None })
                } else {
                    Err(SqlErrorOf::OnlyCountAll)
                }
            },
            ArgumentOf::Expr(expr) => match parse_column(expr) {
                Ok(column) => Ok(SqlAggregateExpr { function: aggregate, column: Some(column) }),
                Err(error) => Err(error),
            },
            ArgumentOf::Other => Err(SqlErrorOf::AggregateArgument),
        },
    }
}


proof fn lemma_items_error(items: Seq<ItemOf<Seq<char>>>, k: int)
    requires
        0 <= k <= items.len(),
        items_of(items.take(k)) is Err,
    ensures
        items_of(items) == items_of(items.take(k)),
    decreases items.len() - k,
{
    if k < items.len() {
        assert(items.take(k + 1).drop_last() =~= items.take(k));
        lemma_items_error(items, k + 1);
    } else {
        assert(items.take(k) =~= items);
    }
}

fn parse_items(items: &Vec<ItemOf<String>>) -> (result: Result<
    (Vec<String>, Vec<SqlAggregateExpr>),
    SqlError,
>)
    ensures
        match result {
            Ok((columns, aggregates)) => items_of(
                items@.map_values(|item: ItemOf<String>| item_model(item)),
            ) == Ok::<(Seq<Seq<char>>, Seq<AggregateModel>), SqlErrorModel>(
                (texts_model(columns@), aggregates_model(aggregates@)),
            ),
            Err(error) => items_of(items@.map_values(|item: ItemOf<String>| item_model(item)))
                == Err::<(Seq<Seq<char>>, Seq<AggregateModel>), SqlErrorModel>(error_model(error)),
        },
{
    let ghost models = items@.map_values(|item: ItemOf<String>| item_model(item));
    let mut columns: Vec<String> = Vec::new();
    let mut aggregates: Vec<SqlAggregateExpr> = Vec::new();
    let mut i: usize = 0;
    assert(models.take(0) =~= Seq::<ItemOf<Seq<char>>>::empty());
    assert(texts_model(columns@) =~= Seq::<Seq<char>>::empty());
    assert(aggregates_model(aggregates@) =~= Seq::<AggregateModel>::empty());
    while i < items.len()
        invariant
            models == items@.map_values(|item: ItemOf<String>| item_model(item)),
            i <= items@.len(),
            items_of(models.take(i as int)) == Ok::<
                (Seq<Seq<char>>, Seq<AggregateModel>),
                SqlErrorModel,
            >((texts_model(columns@), aggregates_model(aggregates@))),
        decreases items@.len() - i,
    {
        let ghost names = texts_model(columns@);
        let ghost calls = aggregates_model(aggregates@);
        proof {
            assert(models.take(i + 1).drop_last() =~= models.take(i as int));
            assert(models.take(i + 1).last() == item_model(items@[i as int]));
            if items_of(models.take(i + 1)) is Err {
                lemma_items_error(models, i + 1);
            }
        }
        match &items[i] {
            ItemOf::Wildcard => return Err(SqlErrorOf::StarWithColumns),
            ItemOf::QualifiedWildcard => return Err(SqlErrorOf::StarWithColumns),
            ItemOf::Other => return Err(SqlErrorOf::ItemForm),
            ItemOf::Expr(expr) => match expr {
                ExprOf::Identifier(name) => {
                    columns.push(name.clone());
                    assert(texts_model(columns@) =~= names.push(name@));
                },
                ExprOf::Function(function) => match parse_aggregate(function) {
                    Ok(aggregate) => {
                        let ghost model = aggregate@;
                        aggregates.push(aggregate);
                        assert(aggregates_model(aggregates@) =~= calls.push(model));
                    },
                    Err(error) => return Err(error),
                },
                _ => return Err(SqlErrorOf::ItemForm),
            },
        }
        i = i + 1;
    }
    assert(models.take(i as int) =~= models);
    Ok((columns, aggregates))
}

fn parse_projection(items: &Vec<ItemOf<String>>, group: &GroupOf<String>) -> (result: Result<
    SqlProjection,
    SqlError,
>)
    ensures
        match result {
            Ok(projection) => projection_of(
                items@.map_values(|item: ItemOf<String>| item_model(item)),
                group_model(*group),
            ) == Ok::<ProjectionModel, SqlErrorModel>(projection@),
            Err(error) => projection_of(
                items@.map_values(|item: ItemOf<String>| item_model(item)),
                group_model(*group),
            ) == Err::<ProjectionModel, SqlErrorModel>(error_model(error)),
        },
{
    if items.len() == 1 {
        if let ItemOf::Wildcard = &items[0] {
            return match group {
                GroupOf::Expressions(count, _, modifiers) => if *count == 0 && *modifiers == 0 {
                    Ok(SqlProjection::All)
                } else {
                    Err(SqlErrorOf::StarWithGroupBy)
                },
                GroupOf::All => Err(SqlErrorOf::StarWithGroupBy),
            };
        }
    }
    if items.len() == 0 {
        return Err(SqlErrorOf::NoItems);
    }
    let grouping = match parse_group_by(group) {
        Ok(grouping) => grouping,
        Err(error) => return Err(error),
    };
    let (columns, aggregates) = match parse_items(items) {
        Ok(parsed) => parsed,
        Err(error) => return Err(error),
    };
    if aggregates.len() == 0 {
        if grouping.is_some() {
            return Err(SqlErrorOf::GroupByWithoutAggregate);
        }
        return Ok(SqlProjection::Columns(columns));
    }
    if grouping.is_none() && columns.len() > 0 {
        return Err(SqlErrorOf::ColumnsWithoutGroupBy);
    }
    let group_by: Option<String> = match grouping {
        Some(name) => if name.as_str().is_empty() {
            None
        } else {
            Some(name)
        },
        None => None,
    };
    let fits: bool = match &group_by {
        None => columns.len() == 0,
        Some(name) => columns.len() == 1 && eq_ignore_ascii_case(
            columns[0].as_str(),
            name.as_str(),
        ),
    };
    if !fits {
        return Err(SqlErrorOf::OtherColumns);
    }
    Ok(SqlProjection::Aggregates(SqlAggregate { group_by, expressions: aggregates }))
}

impl SqlAst {
    /// Parses one `SELECT ... FROM dataset [WHERE ...] [LIMIT ...]` statement. A text that
    /// the parser may not answer is refused.
    pub fn parse(sql: &str) -> (result: Result<Self, SqlError>)
        ensures
            match sql_models(sql@) {
                Err(message) => result is Err && error_model(result->Err_0) == SqlErrorOf::Parse(
                    message,
                ),
                Ok(statements) => match result {
                    Ok(ast) => statements_meaning(statements) == Ok::<SqlModel, SqlErrorModel>(
                        ast@,
                    ),
                    Err(error) => statements_meaning(statements) == Err::<SqlModel, SqlErrorModel>(
                        error_model(error),
                    ),
                },
            },
            unanswered(sql@) ==> result is Err && error_model(result->Err_0) == SqlErrorOf::Parse(
                unanswered_text(),
            ),
    {
        match read_statements(sql) {
            Ok(statements) => Self::from_statements(&statements),
            Err(message) => Err(SqlErrorOf::Parse(message)),
        }
    }

    /// The query that these statements are.
    pub fn from_statements(statements: &Vec<SqlStatement>) -> (result: Result<Self, SqlError>)
        ensures
            match result {
                Ok(ast) => statements_meaning(statement_models(statements@)) == Ok::<
                    SqlModel,
                    SqlErrorModel,
                >(ast@),
                Err(error) => statements_meaning(statement_models(statements@)) == Err::<
                    SqlModel,
                    SqlErrorModel,
                >(error_model(error)),
            },
    {
        if statements.len() != 1 {
            return Err(SqlErrorOf::StatementCount);
        }
        let query = match &statements[0] {
            SqlStatement::Query(query) => query,
            SqlStatement::Other => return Err(SqlErrorOf::NotAQuery),
        };
        if query.clauses.with {
            return Err(SqlErrorOf::With);
        }
        if query.clauses.fetch {
            return Err(SqlErrorOf::Fetch);
        }
        if query.clauses.locks != 0 || query.clauses.for_clause || query.clauses.pipe_operators
            != 0 {
            return Err(SqlErrorOf::LockOrPipe);
        }
        let limit = match parse_limit(&query.limit) {
            Ok(limit) => limit,
            Err(error) => return Err(error),
        };
        let sort = match parse_order_by(&query.order) {
            Ok(sort) => sort,
            Err(error) => return Err(error),
        };
        let select = match &query.select {
            Some(select) => select,
            None => return Err(SqlErrorOf::NotOneSelect),
        };
        if let Err(error) = reject_select_clauses(select.clauses) {
            return Err(error);
        }
        if let Err(error) = validate_from(&select.tables) {
            return Err(error);
        }
        let projection = match parse_projection(&select.items, &select.group) {
            Ok(projection) => projection,
            Err(error) => return Err(error),
        };
        let predicate = match &select.selection {
            None => None,
            Some(expr) => match parse_predicate(expr) {
                Ok(predicate) => Some(predicate),
                Err(error) => return Err(error),
            },
        };
        Ok(SqlAst { projection, predicate, sort, limit })
    }

    pub fn projection(&self) -> (projection: &SqlProjection)
        ensures
            projection@ == self@.projection,
    {
        &self.projection
    }

    pub fn predicate(&self) -> (predicate: Option<&SqlPredicate>)
        ensures
            self@.predicate == match predicate {
                Some(predicate) => Some(predicate@),
                None => None,
            },
    {
        self.predicate.as_ref()
    }

    pub fn limit(&self) -> (limit: Option<usize>)
        ensures
            limit == self@.limit,
    {
        self.limit
    }

    pub fn sort(&self) -> (sort: Option<&SqlSort>)
        ensures
            self@.sort == match sort {
                Some(sort) => Some(sort@),
                None => None,
            },
    {
        self.sort.as_ref()
    }
}


// ---------------------------------------------------------------------------
// Planning
// ---------------------------------------------------------------------------

/// The first column, not before `from`, whose name is `name` up to the case of
/// ASCII letters.
pub open spec fn folded_index(names: Seq<Seq<char>>, name: Seq<char>, from: int) -> Option<int>
    decreases names.len() - from,
{
    if from < 0 || from >= names.len() {
        None
    } else if same_ignoring_case(names[from], name) {
        Some(from)
    } else {
        folded_index(names, name, from + 1)
    }
}

/// The column that a name means: the first one with exactly this name, or else
/// the only one with this name up to case.
pub open spec fn resolved(names: Seq<Seq<char>>, name: Seq<char>) -> Result<int, SqlErrorModel> {
    match first_index(names, name) {
        Some(index) => Ok(index),
        None => match folded_index(names, name, 0) {
            None => Err(SqlErrorOf::UnknownColumn(name)),
            Some(index) => if folded_index(names, name, index + 1) is Some {
                Err(SqlErrorOf::AmbiguousColumn(name))
            } else {
                Ok(index)
            },
        },
    }
}

/// The columns that a list of names means.
pub open spec fn all_resolved(names: Seq<Seq<char>>, columns: Seq<Seq<char>>) -> Result<
    Seq<usize>,
    SqlErrorModel,
>
    decreases columns.len(),
{
    if columns.len() == 0 {
        Ok(Seq::empty())
    } else {
        match all_resolved(names, columns.drop_last()) {
            Err(error) => Err(error),
            Ok(indexes) => match resolved(names, columns.last()) {
                Err(error) => Err(error),
                Ok(index) => Ok(indexes.push(index as usize)),
            },
        }
    }
}

/// The aggregate expression that an aggregate means.
pub open spec fn aggregate_resolved(names: Seq<Seq<char>>, aggregate: AggregateModel) -> Result<
    AggregateExpr,
    SqlErrorModel,
> {
    match aggregate.column {
        None => if aggregate.function == AggregateFunction::Count {
            Ok(AggregateExpr::of(AggregateFunction::Count, None))
        } else {
            Err(SqlErrorOf::OnlyCountAll)
        },
        Some(column) => match resolved(names, column) {
            Err(error) => Err(error),
            Ok(index) => Ok(AggregateExpr::of(aggregate.function, Some(index as usize))),
        },
    }
}

/// The aggregate expressions that a list of aggregates means.
pub open spec fn aggregates_resolved(
    names: Seq<Seq<char>>,
    aggregates: Seq<AggregateModel>,
) -> Result<Seq<AggregateExpr>, SqlErrorModel>
    decreases aggregates.len(),
{
    if aggregates.len() == 0 {
        Ok(Seq::empty())
    } else {
        match aggregates_resolved(names, aggregates.drop_last()) {
            Err(error) => Err(error),
            Ok(expressions) => match aggregate_resolved(names, aggregates.last()) {
                Err(error) => Err(error),
                Ok(expression) => Ok(expressions.push(expression)),
            },
        }
    }
}

/// The projected columns, or the aggregates and their grouping column.
pub open spec fn projection_resolved(names: Seq<Seq<char>>, projection: ProjectionModel) -> Result<
    (Option<Seq<usize>>, Option<(Seq<AggregateExpr>, Option<usize>)>),
    SqlErrorModel,
> {
    match projection {
        ProjectionModel::All => Ok((None, None)),
        ProjectionModel::Columns(columns) => match all_resolved(names, columns) {
            Err(error) => Err(error),
            Ok(indexes) => Ok((Some(indexes), None)),
        },
        ProjectionModel::Aggregates(grouping, aggregates) => match aggregates_resolved(
            names,
            aggregates,
        ) {
            Err(error) => Err(error),
            Ok(expressions) => match grouping {
                None => Ok((None, Some((expressions, None)))),
                Some(name) => match resolved(names, name) {
                    Err(error) => Err(error),
                    Ok(index) => Ok((None, Some((expressions, Some(index as usize))))),
                },
            },
        },
    }
}

/// The filter that a condition means.
pub open spec fn predicate_resolved(names: Seq<Seq<char>>, predicate: Option<FilterModel>) -> Result<
    Option<FilterModel>,
    SqlErrorModel,
> {
    match predicate {
        None => Ok(None),
        Some(filter) => match resolved(names, filter.column) {
            Err(error) => Err(error),
            Ok(index) => Ok(
                Some(FilterModel { column: names[index], op: filter.op, value: filter.value }),
            ),
        },
    }
}

/// The sort that an order means.
pub open spec fn sort_resolved(names: Seq<Seq<char>>, sort: Option<SortModel>) -> Result<
    Option<SortSpec>,
    SqlErrorModel,
> {
    match sort {
        None => Ok(None),
        Some(sort) => match resolved(names, sort.column) {
            Err(error) => Err(error),
            Ok(index) => Ok(
                Some(
                    SortSpec {
                        column: index as usize,
                        direction: sort.direction,
                        nulls: sort.nulls,
                    },
                ),
            ),
        },
    }
}

/// The plan that a query means over a dataset.
pub open spec fn plan_meaning(query: SqlModel, source: DatasetMetadata) -> Result<
    PlanParts,
    SqlErrorModel,
> {
    let names = field_names(source.schema.fields@);
    match projection_resolved(names, query.projection) {
        Err(error) => Err(error),
        Ok((columns, aggregate)) => match predicate_resolved(names, query.predicate) {
            Err(error) => Err(error),
            Ok(filter) => match sort_resolved(names, query.sort) {
                Err(error) => Err(error),
                Ok(sort) => if aggregate is Some && aggregate_count(aggregate) == 0 {
                    Err(SqlErrorOf::EmptyAggregate)
                } else if sort is Some && query.projection is Aggregates {
                    Err(SqlErrorOf::OrderByAggregate)
                } else {
                    Ok(PlanParts { source, columns, filter, aggregate, sort, limit: query.limit })
                },
            },
        },
    }
}

/// How many expressions an aggregate has.
pub open spec fn aggregate_count(
    aggregate: Option<(Seq<AggregateExpr>, Option<usize>)>,
) -> nat {
    match aggregate {
        Some((expressions, _)) => expressions.len(),
        None => 0,
    }
}

proof fn lemma_folded_index(names: Seq<Seq<char>>, name: Seq<char>, from: int)
    requires
        0 <= from,
    ensures
        match folded_index(names, name, from) {
            Some(index) => from <= index < names.len() && same_ignoring_case(names[index], name)
                && forall|k: int| from <= k < index ==> !same_ignoring_case(#[trigger] names[k], name),
            None => forall|k: int|
                from <= k < names.len() ==> !same_ignoring_case(#[trigger] names[k], name),
        },
    decreases names.len() - from,
{
    if from < names.len() && !same_ignoring_case(names[from], name) {
        lemma_folded_index(names, name, from + 1);
    }
}

/// A name means a column of exactly this name where there is one. Else it means
/// the only column of this name up to the case of ASCII letters; with none or
/// several such columns it means nothing.
pub proof fn law_resolved_column_is_the_only_match(names: Seq<Seq<char>>, name: Seq<char>)
    ensures
        match resolved(names, name) {
            Ok(index) => 0 <= index < names.len() && (names[index] == name || (
            same_ignoring_case(names[index], name) && !names.contains(name) && forall|k: int|
                0 <= k < names.len() && same_ignoring_case(#[trigger] names[k], name) ==> k
                    == index)),
            Err(SqlErrorOf::UnknownColumn(unknown)) => unknown == name && forall|k: int|
                0 <= k < names.len() ==> !same_ignoring_case(#[trigger] names[k], name),
            Err(SqlErrorOf::AmbiguousColumn(ambiguous)) => ambiguous == name && !names.contains(
                name,
            ) && exists|j: int, k: int|
                0 <= j < k < names.len() && same_ignoring_case(#[trigger] names[j], name)
                    && same_ignoring_case(#[trigger] names[k], name),
            Err(_) => false,
        },
{
    lemma_first_index(names, name);
    lemma_folded_index(names, name, 0);
    if let Some(first) = folded_index(names, name, 0) {
        lemma_folded_index(names, name, first + 1);
        if let Some(second) = folded_index(names, name, first + 1) {
            assert(same_ignoring_case(names[first], name));
            assert(same_ignoring_case(names[second], name));
        }
    }
}

fn find_folded(fields: &Vec<Field>, name: &str, from: usize) -> (found: Option<usize>)
    requires
        from <= fields@.len(),
    ensures
        match found {
            Some(index) => folded_index(field_names(fields@), name@, from as int) == Some(
                index as int,
            ) && index < fields@.len(),
            None => folded_index(field_names(fields@), name@, from as int) is None,
        },
{
    let mut index: usize = from;
    while index < fields.len()
        invariant
            from <= index <= fields@.len(),
            folded_index(field_names(fields@), name@, from as int) == folded_index(
                field_names(fields@),
                name@,
                index as int,
            ),
        decreases fields@.len() - index,
    {
        assert(field_names(fields@)[index as int] == fields@[index as int].name@);
        if eq_ignore_ascii_case(fields[index].name.as_str(), name) {
            return Some(index);
        }
        index = index + 1;
    }
    None
}

/// The column that a name means.
pub fn resolve_column(fields: &Vec<Field>, name: &str) -> (result: Result<usize, SqlError>)
    ensures
        match result {
            Ok(index) => resolved(field_names(fields@), name@) == Ok::<int, SqlErrorModel>(
                index as int,
            ) && index < fields@.len(),
            Err(error) => resolved(field_names(fields@), name@) == Err::<int, SqlErrorModel>(
                error_model(error),
            ),
        },
{
    if let Some(index) = find_column(fields, name) {
        return Ok(index);
    }
    proof {
        assert(field_names(fields@).len() == fields.len());
    }
    match find_folded(fields, name, 0) {
        None => Err(SqlErrorOf::UnknownColumn(name.to_owned())),
        Some(index) => match find_folded(fields, name, index + 1) {
            Some(_) => Err(SqlErrorOf::AmbiguousColumn(name.to_owned())),
            None => Ok(index),
        },
    }
}

proof fn lemma_all_resolved_error(names: Seq<Seq<char>>, columns: Seq<Seq<char>>, k: int)
    requires
        0 <= k <= columns.len(),
        all_resolved(names, columns.take(k)) is Err,
    ensures
        all_resolved(names, columns) == all_resolved(names, columns.take(k)),
    decreases columns.len() - k,
{
    if k < columns.len() {
        assert(columns.take(k + 1).drop_last() =~= columns.take(k));
        lemma_all_resolved_error(names, columns, k + 1);
    } else {
        assert(columns.take(k) =~= columns);
    }
}

proof fn lemma_aggregates_resolved_error(
    names: Seq<Seq<char>>,
    aggregates: Seq<AggregateModel>,
    k: int,
)
    requires
        0 <= k <= aggregates.len(),
        aggregates_resolved(names, aggregates.take(k)) is Err,
    ensures
        aggregates_resolved(names, aggregates) == aggregates_resolved(names, aggregates.take(k)),
    decreases aggregates.len() - k,
{
    if k < aggregates.len() {
        assert(aggregates.take(k + 1).drop_last() =~= aggregates.take(k));
        lemma_aggregates_resolved_error(names, aggregates, k + 1);
    } else {
        assert(aggregates.take(k) =~= aggregates);
    }
}

fn resolve_columns(fields: &Vec<Field>, columns: &Vec<String>) -> (result: Result<
    Vec<usize>,
    SqlError,
>)
    ensures
        match result {
            Ok(indexes) => all_resolved(field_names(fields@), texts_model(columns@)) == Ok::<
                Seq<usize>,
                SqlErrorModel,
            >(indexes@),
            Err(error) => all_resolved(field_names(fields@), texts_model(columns@)) == Err::<
                Seq<usize>,
                SqlErrorModel,
            >(error_model(error)),
        },
{
    let ghost names = field_names(fields@);
    let ghost wanted = texts_model(columns@);
    let mut indexes: Vec<usize> = Vec::new();
    let mut i: usize = 0;
    assert(wanted.take(0) =~= Seq::<Seq<char>>::empty());
    while i < columns.len()
        invariant
            names == field_names(fields@),
            wanted == texts_model(columns@),
            i <= columns@.len(),
            all_resolved(names, wanted.take(i as int)) == Ok::<Seq<usize>, SqlErrorModel>(indexes@),
        decreases columns@.len() - i,
    {
        proof {
            assert(wanted.take(i + 1).drop_last() =~= wanted.take(i as int));
            assert(wanted.take(i + 1).last() == columns@[i as int]@);
            if all_resolved(names, wanted.take(i + 1)) is Err {
                lemma_all_resolved_error(names, wanted, i + 1);
            }
        }
        match resolve_column(fields, columns[i].as_str()) {
            Ok(index) => indexes.push(index),
            Err(error) => return Err(error),
        }
        i = i + 1;
    }
    assert(wanted.take(i as int) =~= wanted);
    Ok(indexes)
}

fn resolve_aggregate(fields: &Vec<Field>, aggregate: &SqlAggregateExpr) -> (result: Result<
    AggregateExpr,
    SqlError,
>)
    ensures
        match result {
            Ok(expression) => aggregate_resolved(field_names(fields@), aggregate@) == Ok::<
                AggregateExpr,
                SqlErrorModel,
            >(expression),
            Err(error) => aggregate_resolved(field_names(fields@), aggregate@) == Err::<
                AggregateExpr,
                SqlErrorModel,
            >(error_model(error)),
        },
{
    match &aggregate.column {
        None => if aggregate.function == AggregateFunction::Count {
            Ok(AggregateExpr::count_all())
        } else {
            Err(SqlErrorOf::OnlyCountAll)
        },
        Some(column) => match resolve_column(fields, column.as_str()) {
            Ok(index) => Ok(
                match aggregate.function {
                    AggregateFunction::Count => AggregateExpr::count(index),
                    AggregateFunction::Sum => AggregateExpr::sum(index),
                    AggregateFunction::Avg => AggregateExpr::avg(index),
                    AggregateFunction::Min => AggregateExpr::min(index),
                    AggregateFunction::Max => AggregateExpr::max(index),
                },
            ),
            Err(error) => Err(error),
        },
    }
}

fn resolve_aggregates(fields: &Vec<Field>, aggregates: &Vec<SqlAggregateExpr>) -> (result: Result<
    Vec<AggregateExpr>,
    SqlError,
>)
    ensures
        match result {
            Ok(expressions) => aggregates_resolved(
                field_names(fields@),
                aggregates_model(aggregates@),
            ) == Ok::<Seq<AggregateExpr>, SqlErrorModel>(expressions@),
            Err(error) => aggregates_resolved(
                field_names(fields@),
                aggregates_model(aggregates@),
            ) == Err::<Seq<AggregateExpr>, SqlErrorModel>(error_model(error)),
        },
{
    let ghost names = field_names(fields@);
    let ghost wanted = aggregates_model(aggregates@);
    let mut expressions: Vec<AggregateExpr> = Vec::new();
    let mut i: usize = 0;
    assert(wanted.take(0) =~= Seq::<AggregateModel>::empty());
    while i < aggregates.len()
        invariant
            names == field_names(fields@),
            wanted == aggregates_model(aggregates@),
            i <= aggregates@.len(),
            aggregates_resolved(names, wanted.take(i as int)) == Ok::<
                Seq<AggregateExpr>,
                SqlErrorModel,
            >(expressions@),
        decreases aggregates@.len() - i,
    {
        proof {
            assert(wanted.take(i + 1).drop_last() =~= wanted.take(i as int));
            assert(wanted.take(i + 1).last() == aggregates@[i as int]@);
            if aggregates_resolved(names, wanted.take(i + 1)) is Err {
                lemma_aggregates_resolved_error(names, wanted, i + 1);
            }
        }
        match resolve_aggregate(fields, &aggregates[i]) {
            Ok(expression) => expressions.push(expression),
            Err(error) => return Err(error),
        }
        i = i + 1;
    }
    assert(wanted.take(i as int) =~= wanted);
    Ok(expressions)
}

/// The parts of a bare scan.
spec fn scan_parts(source: Arc<DatasetMetadata>) -> PlanParts {
    PlanParts {
        source: *source,
        columns: None,
        filter: None,
        aggregate: None,
        sort: None,
        limit: None,
    }
}

/// The plan with these parts: filter, projection, aggregate, sort and limit, in
/// this order, over a scan.
fn assembled_plan(
    source: Arc<DatasetMetadata>,
    filter: Option<Filter>,
    columns: Option<Vec<usize>>,
    aggregate: Option<AggregateSpec>,
    sort: Option<SortSpec>,
    limit: Option<usize>,
) -> (plan: LogicalPlan)
    ensures
        parts_of(plan) == Ok::<PlanParts, PlanStep>(
            PlanParts {
                source: *source,
                columns: match columns {
                    Some(columns) => Some(columns@),
                    None => None,
                },
                filter: match filter {
                    Some(filter) => Some(filter.expression@),
                    None => None,
                },
                aggregate: match aggregate {
                    Some(aggregate) => Some((aggregate.listed(), aggregate.grouping())),
                    None => None,
                },
                sort,
                limit,
            },
        ),
{
    let ghost mut parts = scan_parts(source);
    let mut plan = LogicalPlan::scan(source);
    assert(parts_of(plan) == Ok::<PlanParts, PlanStep>(parts));
    if let Some(filter) = filter {
        plan = plan.filter(filter);
        proof {
            parts = PlanParts { filter: Some(filter.expression@), ..parts };
        }
    }
    assert(parts_of(plan) == Ok::<PlanParts, PlanStep>(parts));
    if let Some(columns) = columns {
        plan = plan.project(columns);
        proof {
            parts = PlanParts { columns: Some(columns@), ..parts };
        }
    }
    assert(parts_of(plan) == Ok::<PlanParts, PlanStep>(parts));
    if let Some(aggregate) = aggregate {
        proof {
            parts = PlanParts {
                aggregate: Some((aggregate.listed(), aggregate.grouping())),
                ..parts
            };
        }
        plan = LogicalPlan::Aggregate { input: Box::new(plan), aggregate };
    }
    assert(parts_of(plan) == Ok::<PlanParts, PlanStep>(parts));
    if let Some(sort) = sort {
        plan = plan.sort(sort.column, sort.direction, sort.nulls);
        proof {
            parts = PlanParts { sort: Some(sort), ..parts };
        }
    }
    assert(parts_of(plan) == Ok::<PlanParts, PlanStep>(parts));
    if let Some(rows) = limit {
        plan = plan.limit(rows);
        proof {
            parts = PlanParts { limit: Some(rows), ..parts };
        }
    }
    assert(parts_of(plan) == Ok::<PlanParts, PlanStep>(parts));
    plan
}

impl SqlAst {
    /// Resolves the names of this query against a dataset and produces the
    /// logical plan. A predicate and a sort name their columns exactly.
    pub fn to_logical_plan(&self, source: Arc<DatasetMetadata>) -> (result: Result<
        LogicalPlan,
        SqlError,
    >)
        ensures
            match plan_meaning(self@, *source) {
                Err(error) => result is Err && error_model(result->Err_0) == error,
                Ok(parts) => match result {
                    Ok(plan) => parts_of(plan) == Ok::<PlanParts, PlanStep>(parts) && fits_dataset(
                        parts,
                    ),
                    Err(error) => error matches SqlErrorOf::Plan(fault) && plan_fails(parts, fault),
                },
            },
    {
        let ghost names = field_names(source.schema.fields@);
        let fields = &source.schema.fields;
        let mut columns: Option<Vec<usize>> = None;
        let mut aggregate: Option<(Option<usize>, Vec<AggregateExpr>)> = None;
        let mut aggregated: bool = false;
        match &self.projection {
            SqlProjection::All => {},
            SqlProjection::Columns(wanted) => {
                match resolve_columns(fields, wanted) {
                    Ok(indexes) => {
                        columns = Some(indexes);
                    },
                    Err(error) => return Err(error),
                }
            },
            SqlProjection::Aggregates(wanted) => {
                aggregated = true;
                let expressions = match resolve_aggregates(fields, &wanted.expressions) {
                    Ok(expressions) => expressions,
                    Err(error) => return Err(error),
                };
                let group_by: Option<usize> = match &wanted.group_by {
                    None => None,
                    Some(name) => match resolve_column(fields, name.as_str()) {
                        Ok(index) => Some(index),
                        Err(error) => return Err(error),
                    },
                };
                aggregate = Some((group_by, expressions));
            },
        }
        let filter: Option<Filter> = match &self.predicate {
            None => None,
            Some(predicate) => match resolve_column(fields, predicate.column.as_str()) {
                Ok(index) => Some(
                    Filter::new(
                        FilterExpr {
                            column: fields[index].name.clone(),
                            op: predicate.op,
                            value: predicate.value.clone(),
                        },
                    ),
                ),
                Err(error) => return Err(error),
            },
        };
        let sort: Option<SortSpec> = match &self.sort {
            None => None,
            Some(sort) => match resolve_column(fields, sort.column.as_str()) {
                Ok(index) => Some(SortSpec::new(index, sort.direction, sort.nulls)),
                Err(error) => return Err(error),
            },
        };
        let aggregate = match aggregate {
            None => None,
            Some((group_by, expressions)) => {
                let spec = match group_by {
                    Some(column) => AggregateSpec::grouped(column, expressions),
                    None => AggregateSpec::new(expressions),
                };
                match spec {
                    Ok(spec) => Some(spec),
                    Err(_) => return Err(SqlErrorOf::EmptyAggregate),
                }
            },
        };
        if aggregated && sort.is_some() {
            return Err(SqlErrorOf::OrderByAggregate);
        }
        let plan = assembled_plan(
            crate::logical::share_metadata(&source),
            filter,
            columns,
            aggregate,
            sort,
            self.limit,
        );
        match Planner::plan(&plan) {
            Ok(_) => Ok(plan),
            Err(error) => Err(SqlErrorOf::Plan(error)),
        }
    }
}

// ---------------------------------------------------------------------------
// What queries mean
// ---------------------------------------------------------------------------

/// A condition between a column and a literal is accepted for each comparison, and lets a
/// number pass exactly where it stands to the number of the literal as SQL says: `<>` keeps
/// the lesser and the greater ones, and so on. A null never passes. `row` and `value` are
/// the two numbers.
pub proof fn law_condition_keeps_the_numbers_it_names(
    column: Seq<char>,
    op: SqlOperator,
    literal: Seq<char>,
    orders: Vec<Option<FloatOrder>>,
    at: int,
    row: int,
    value: int,
)
    requires
        0 <= at < orders@.len(),
        op != SqlOperator::And && op != SqlOperator::Other,
        orders@[at] matches Some(order) ==> (order is Less <==> row < value) && (order is Equal
            <==> row == value) && (order is Greater <==> row > value),
    ensures
        predicate_of(
            ExprOf::Binary(
                Box::new(ExprOf::Identifier(column)),
                op,
                Box::new(ExprOf::Value(literal)),
            ),
        ) matches Ok(filter) && filter.column == column && filter.value == literal_value(literal)
            && (row_matches(filter, FilterInput::Numbers(orders), at) <==> orders@[at] is Some
            && match op {
            SqlOperator::Eq => row == value,
            SqlOperator::NotEq => row < value || row > value,
            SqlOperator::Gt => row > value,
            SqlOperator::GtEq => row > value || row == value,
            SqlOperator::Lt => row < value,
            SqlOperator::LtEq => row < value || row == value,
            _ => false,
        }),
{
}

/// A condition between a column and a literal lets a text pass exactly where it stands to
/// the text of the literal as SQL says.
pub proof fn law_condition_keeps_the_texts_it_names(
    column: Seq<char>,
    op: SqlOperator,
    literal: Seq<char>,
    texts: Vec<Option<String>>,
    at: int,
)
    requires
        0 <= at < texts@.len(),
        op != SqlOperator::And && op != SqlOperator::Other,
    ensures
        predicate_of(
            ExprOf::Binary(
                Box::new(ExprOf::Identifier(column)),
                op,
                Box::new(ExprOf::Value(literal)),
            ),
        ) matches Ok(filter) && (row_matches(filter, FilterInput::Texts(texts), at)
            <==> texts@[at] is Some && {
            let order = text_order(texts@[at]->0@, literal_value(literal));
            match op {
                SqlOperator::Eq => texts@[at]->0@ == literal_value(literal),
                SqlOperator::NotEq => texts@[at]->0@ != literal_value(literal),
                SqlOperator::Gt => order is Greater,
                SqlOperator::GtEq => order is Greater || order is Equal,
                SqlOperator::Lt => order is Less,
                SqlOperator::LtEq => order is Less || order is Equal,
                _ => false,
            }
        }),
{
    if let Some(text) = texts@[at] {
        lemma_text_before_total(text@, literal_value(literal));
        lemma_text_before_irreflexive(text@);
    }
}

/// `LIKE '%part%'` lets a text pass exactly where the part stands somewhere in it.
pub proof fn law_like_searches_for_a_part(
    column: Seq<char>,
    part: Seq<char>,
    texts: Vec<Option<String>>,
    at: int,
)
    requires
        0 <= at < texts@.len(),
        !part.contains('%') && !part.contains('_') && !part.contains('\''),
    ensures
        predicate_of(
            ExprOf::Like(
                LikeOf {
                    negated: false,
                    any: false,
                    expr: Box::new(ExprOf::Identifier(column)),
                    pattern: Box::new(ExprOf::Value(seq!['\'', '%'] + part + seq!['%', '\''])),
                },
            ),
        ) matches Ok(filter) && filter.column == column && (row_matches(
            filter,
            FilterInput::Texts(texts),
            at,
        ) <==> texts@[at] is Some && exists|from: int|
            0 <= from && from + part.len() <= texts@[at]->0@.len()
                && #[trigger] texts@[at]->0@.subrange(from, from + part.len()) == part),
{
    let inner = seq!['%'] + part + seq!['%'];
    let literal = seq!['\'', '%'] + part + seq!['%', '\''];
    assert(literal.subrange(1, literal.len() - 1) =~= inner);
    assert forall|i: int| 0 <= i < inner.len() implies #[trigger] inner[i] != '\'' by {
        if 0 < i < inner.len() - 1 {
            assert(part.contains(part[i - 1]));
        }
    }
    lemma_undoubled_plain(inner);
    assert(literal_value(literal) == inner);
    assert(inner.subrange(1, inner.len() - 1) =~= part);
    if let Some(text) = texts@[at] {
        if contains_text(text@, part) {
            let from = choose|from: int| #[trigger] occurs_at(text@, part, from);
            assert(text@.subrange(from, from + part.len()) == part);
        }
        if exists|from: int|
            0 <= from && from + part.len() <= text@.len() && #[trigger] text@.subrange(
                from,
                from + part.len(),
            ) == part {
            let from = choose|from: int|
                0 <= from && from + part.len() <= text@.len() && #[trigger] text@.subrange(
                    from,
                    from + part.len(),
                ) == part;
            assert(occurs_at(text@, part, from));
        }
    }
}

proof fn lemma_undoubled_plain(s: Seq<char>)
    requires
        forall|i: int| 0 <= i < s.len() ==> #[trigger] s[i] != '\'',
    ensures
        undoubled(s) == s,
    decreases s.len(),
{
    if s.len() > 0 {
        let rest = s.skip(1);
        assert forall|i: int| 0 <= i < rest.len() implies #[trigger] rest[i] != '\'' by {
            assert(rest[i] == s[i + 1]);
        }
        lemma_undoubled_plain(rest);
        assert(seq![s[0]] + rest =~= s);
    }
}

/// A text with each single quote written twice.
pub open spec fn doubled(s: Seq<char>) -> Seq<char>
    decreases s.len(),
{
    if s.len() == 0 {
        s
    } else if s[0] == '\'' {
        seq!['\'', '\''] + doubled(s.skip(1))
    } else {
        seq![s[0]] + doubled(s.skip(1))
    }
}

proof fn lemma_undoubled_doubled(s: Seq<char>)
    ensures
        undoubled(doubled(s)) == s,
    decreases s.len(),
{
    if s.len() > 0 {
        let rest = doubled(s.skip(1));
        lemma_undoubled_doubled(s.skip(1));
        assert(seq![s[0]] + s.skip(1) =~= s);
        if s[0] == '\'' {
            assert(doubled(s).skip(2) =~= rest);
        } else {
            assert(doubled(s)[0] == s[0]);
            assert(doubled(s).skip(1) =~= rest);
        }
    }
}

/// Any text can be written as a literal: in single quotes, with its own single quotes
/// doubled. A literal that is not quoted stands for itself, and a sign before it counts.
pub proof fn law_literal_stands_for_its_text(text: Seq<char>)
    ensures
        literal_of(ExprOf::Value(seq!['\''] + doubled(text) + seq!['\''])) == Ok::<
            Seq<char>,
            SqlErrorModel,
        >(text),
        text.len() > 0 && text[0] != '\'' ==> literal_of(ExprOf::Value(text)) == Ok::<
            Seq<char>,
            SqlErrorModel,
        >(text),
        text.len() > 0 && text[0] != '\'' ==> literal_of(
            ExprOf::Negative(Box::new(ExprOf::Value(text))),
        ) == Ok::<Seq<char>, SqlErrorModel>(seq!['-'] + text),
        text.len() > 0 && text[0] != '\'' ==> literal_of(
            ExprOf::Positive(Box::new(ExprOf::Value(text))),
        ) == Ok::<Seq<char>, SqlErrorModel>(text),
{
    let inner = doubled(text);
    let literal = seq!['\''] + inner + seq!['\''];
    assert(literal.subrange(1, literal.len() - 1) =~= inner);
    lemma_undoubled_doubled(text);
    reveal_strlit("-");
    assert("-"@ =~= seq!['-']);
    reveal_with_fuel(literal_of, 2);
}

/// A limit is the number that is written.
pub proof fn law_limit_is_what_is_written(rows: usize)
    ensures
        limit_of(Some(seq!['L', 'I', 'M', 'I', 'T', ' '] + decimal(rows as nat))) == Ok::<
            Option<usize>,
            SqlErrorModel,
        >(Some(rows)),
        limit_of(None) == Ok::<Option<usize>, SqlErrorModel>(None),
{
    let word = seq!['L', 'I', 'M', 'I', 'T'];
    let space = seq![' '];
    let nothing = Seq::<char>::empty();
    let digits = decimal(rows as nat);
    let text = seq!['L', 'I', 'M', 'I', 'T', ' '] + digits;
    reveal_strlit("LIMIT");
    assert("LIMIT"@ =~= word);
    lemma_decimal_digits(rows as nat);
    law_parse_inverts_decimal(rows as nat, usize::MAX as nat);
    assert(is_digit(digits[0]));
    assert(is_digit(digits[digits.len() - 1]));
    law_trimming_undoes_padding(nothing, text, nothing);
    assert(nothing + text + nothing =~= text);
    assert(text.subrange(0, 5) =~= word);
    assert(text.skip(5) =~= space + digits + nothing);
    law_trimming_undoes_padding(space, digits, nothing);
}

/// Rows are ordered by the column that is named, upwards unless it says otherwise, and with
/// nulls behind all values unless it says otherwise.
pub proof fn law_order_is_what_is_written(
    column: Seq<char>,
    ascending: Option<bool>,
    nulls_first: Option<bool>,
)
    ensures
        sort_of(
            Some(
                OrderOf {
                    interpolated: false,
                    terms: OrderTermsOf::Terms(
                        1,
                        Some(
                            OrderTermOf {
                                expr: ExprOf::Identifier(column),
                                has_fill: false,
                                ascending,
                                nulls_first,
                            },
                        ),
                    ),
                },
            ),
        ) matches Ok(Some(sort)) && sort.column == column && (sort.direction is Descending
            <==> ascending == Some(false)) && (sort.nulls is First <==> nulls_first == Some(true)),
{
}

proof fn lemma_upper_is_same(name: Seq<char>, word: Seq<char>)
    requires
        forall|i: int| 0 <= i < word.len() ==> 'A' as int <= (#[trigger] word[i]) as int <= 'Z' as int,
    ensures
        upper(name) == word <==> same_ignoring_case(name, word),
{
    if upper(name) == word {
        assert(upper(name).len() == name.len());
        assert forall|i: int| 0 <= i < name.len() implies #[trigger] crate::text::ascii_lower(name[i])
            == crate::text::ascii_lower(word[i]) by {
            assert(upper(name)[i] == word[i]);
            assert(upper(name)[i] == ascii_upper(name[i]));
        }
    }
    if same_ignoring_case(name, word) {
        assert forall|i: int| 0 <= i < name.len() implies #[trigger] upper(name)[i] == word[i] by {
            assert(crate::text::ascii_lower(name[i]) == crate::text::ascii_lower(word[i]));
            assert('A' as int <= word[i] as int <= 'Z' as int);
        }
        assert(upper(name) =~= word);
    }
}

/// An aggregate is called by its name, in any case, and no other name calls one.
pub proof fn law_aggregates_are_called_by_name(name: Seq<char>)
    ensures
        function_of(name) == Some(AggregateFunction::Count) <==> same_ignoring_case(
            name,
            seq!['C', 'O', 'U', 'N', 'T'],
        ),
        function_of(name) == Some(AggregateFunction::Sum) <==> same_ignoring_case(
            name,
            seq!['S', 'U', 'M'],
        ),
        function_of(name) == Some(AggregateFunction::Avg) <==> same_ignoring_case(
            name,
            seq!['A', 'V', 'G'],
        ),
        function_of(name) == Some(AggregateFunction::Min) <==> same_ignoring_case(
            name,
            seq!['M', 'I', 'N'],
        ),
        function_of(name) == Some(AggregateFunction::Max) <==> same_ignoring_case(
            name,
            seq!['M', 'A', 'X'],
        ),
{
    let count = seq!['C', 'O', 'U', 'N', 'T'];
    let sum = seq!['S', 'U', 'M'];
    let avg = seq!['A', 'V', 'G'];
    let min = seq!['M', 'I', 'N'];
    let max = seq!['M', 'A', 'X'];
    reveal_strlit("COUNT");
    reveal_strlit("SUM");
    reveal_strlit("AVG");
    reveal_strlit("MIN");
    reveal_strlit("MAX");
    assert("COUNT"@ =~= count);
    assert("SUM"@ =~= sum);
    assert("AVG"@ =~= avg);
    assert("MIN"@ =~= min);
    assert("MAX"@ =~= max);
    lemma_upper_is_same(name, count);
    lemma_upper_is_same(name, sum);
    lemma_upper_is_same(name, avg);
    lemma_upper_is_same(name, min);
    lemma_upper_is_same(name, max);
    assert(count.len() != sum.len());
    assert(sum[0] != avg[0] && sum[0] != min[0] && avg[0] != min[0]);
    assert(min[1] != max[1]);
    assert(avg[0] != max[0] && sum[0] != max[0]);
}

/// The aggregate that a call states is the one of its name over the column that it names;
/// only `COUNT` can be asked of whole rows.
pub proof fn law_call_states_its_aggregate(call: FunctionOf<Seq<char>>, aggregate: AggregateModel)
    requires
        aggregate_of(call) == Ok::<AggregateModel, SqlErrorModel>(aggregate),
    ensures
        function_of(call.name) == Some(aggregate.function),
        call.arguments matches ArgumentsOf::List(list) && list.count == 1 && list.first is Some
            && match aggregate.column {
            Some(column) => *(list.first->0) == ArgumentOf::Expr(ExprOf::Identifier(column)),
            None => *(list.first->0) == ArgumentOf::<Seq<char>>::Wildcard && aggregate.function
                == AggregateFunction::Count,
        },
{
}

/// The columns of a `SELECT` list come out as they are listed, and so do the aggregates:
/// nothing is added, left out or moved.
pub proof fn law_items_keep_their_order(
    items: Seq<ItemOf<Seq<char>>>,
    columns: Seq<Seq<char>>,
    aggregates: Seq<AggregateModel>,
)
    requires
        items_of(items) == Ok::<(Seq<Seq<char>>, Seq<AggregateModel>), SqlErrorModel>(
            (columns, aggregates),
        ),
    ensures
        columns.len() + aggregates.len() == items.len(),
        aggregates.len() == 0 ==> items == columns.map_values(
            |name: Seq<char>| ItemOf::Expr(ExprOf::Identifier(name)),
        ),
        columns.len() == 0 ==> forall|i: int|
            0 <= i < items.len() ==> (#[trigger] items[i] matches ItemOf::Expr(
                ExprOf::Function(call),
            ) && aggregate_of(call) == Ok::<AggregateModel, SqlErrorModel>(aggregates[i])),
        forall|i: int|
            0 <= i < columns.len() ==> items.contains(
                ItemOf::Expr(ExprOf::Identifier(#[trigger] columns[i])),
            ),
    decreases items.len(),
{
    if items.len() > 0 {
        let init = items.drop_last();
        assert(items =~= init.push(items.last()));
        match items_of(init) {
            Ok((before, called)) => {
                law_items_keep_their_order(init, before, called);
                assert forall|i: int| 0 <= i < columns.len() implies items.contains(
                    ItemOf::Expr(ExprOf::Identifier(#[trigger] columns[i])),
                ) by {
                    if i < before.len() {
                        assert(columns[i] == before[i]);
                        let item = ItemOf::Expr(ExprOf::Identifier(before[i]));
                        assert(init.contains(item));
                        let k = choose|k: int| 0 <= k < init.len() && init[k] == item;
                        assert(items[k] == item);
                    } else {
                        assert(items[items.len() - 1] == ItemOf::Expr(
                            ExprOf::Identifier(columns[i]),
                        ));
                    }
                }
                if aggregates.len() == 0 {
                    assert(items =~= columns.map_values(
                        |name: Seq<char>| ItemOf::Expr(ExprOf::Identifier(name)),
                    ));
                }
                if columns.len() == 0 {
                    assert forall|i: int| 0 <= i < items.len() implies (#[trigger] items[i] matches ItemOf::Expr(
                        ExprOf::Function(call),
                    ) && aggregate_of(call) == Ok::<AggregateModel, SqlErrorModel>(
                        aggregates[i],
                    )) by {
                        if i < init.len() {
                            assert(items[i] == init[i]);
                            assert(aggregates[i] == called[i]);
                        }
                    }
                }
            },
            Err(_) => {},
        }
    } else {
        assert(items =~= columns.map_values(
            |name: Seq<char>| ItemOf::Expr(ExprOf::Identifier(name)),
        ));
    }
}

proof fn lemma_resolved_at(
    names: Seq<Seq<char>>,
    columns: Seq<Seq<char>>,
    indexes: Seq<usize>,
    i: int,
)
    requires
        names.len() <= usize::MAX,
        all_resolved(names, columns) == Ok::<Seq<usize>, SqlErrorModel>(indexes),
    ensures
        indexes.len() == columns.len(),
        0 <= i < columns.len() ==> is_named(names, indexes[i], columns[i]),
    decreases columns.len(),
{
    if columns.len() > 0 {
        let init = columns.drop_last();
        match all_resolved(names, init) {
            Ok(before) => {
                lemma_resolved_at(names, init, before, i);
                if 0 <= i < init.len() {
                    assert(columns[i] == init[i]);
                } else {
                    law_resolved_column_is_the_only_match(names, columns.last());
                }
            },
            Err(_) => {},
        }
    }
}

proof fn lemma_aggregates_resolved(names: Seq<Seq<char>>, aggregates: Seq<AggregateModel>)
    ensures
        aggregates_resolved(names, aggregates) matches Ok(expressions) ==> expressions.len()
            == aggregates.len() && forall|i: int|
            0 <= i < aggregates.len() ==> aggregate_resolved(names, aggregates[i]) == Ok::<
                AggregateExpr,
                SqlErrorModel,
            >(#[trigger] expressions[i]),
    decreases aggregates.len(),
{
    if aggregates.len() > 0 {
        let init = aggregates.drop_last();
        lemma_aggregates_resolved(names, init);
        if let Ok(expressions) = aggregates_resolved(names, aggregates) {
            let before = aggregates_resolved(names, init)->Ok_0;
            assert forall|i: int| 0 <= i < aggregates.len() implies aggregate_resolved(
                names,
                aggregates[i],
            ) == Ok::<AggregateExpr, SqlErrorModel>(#[trigger] expressions[i]) by {
                if i < init.len() {
                    assert(aggregates[i] == init[i]);
                    assert(expressions[i] == before[i]);
                }
            }
        }
    }
}

/// Whether the column at `index` has the name, up to the case of ASCII letters.
pub open spec fn is_named(names: Seq<Seq<char>>, index: usize, name: Seq<char>) -> bool {
    index < names.len() && same_ignoring_case(names[index as int], name)
}

/// The plan of a query over a dataset does what the query says: it reads the columns that
/// the query lists, in their order; it keeps the rows that pass the condition on the column
/// that it names; it orders them by the column that it names, the same way round; it
/// aggregates the columns that it names; and it has the same limit.
pub proof fn law_plan_does_what_the_query_says(
    query: SqlModel,
    source: DatasetMetadata,
    parts: PlanParts,
)
    requires
        source.schema.fields@.len() <= usize::MAX,
        plan_meaning(query, source) == Ok::<PlanParts, SqlErrorModel>(parts),
    ensures
        parts.source == source,
        parts.limit == query.limit,
        ({
            let names = field_names(source.schema.fields@);
            &&& match query.projection {
                ProjectionModel::All => parts.columns is None && parts.aggregate is None,
                ProjectionModel::Columns(wanted) => parts.aggregate is None && (
                parts.columns matches Some(columns) && columns.len() == wanted.len() && forall|i: int|
                    0 <= i < wanted.len() ==> is_named(names, #[trigger] columns[i], wanted[i])),
                ProjectionModel::Aggregates(grouping, wanted) => parts.columns is None && (
                parts.aggregate matches Some((listed, group)) && listed.len() == wanted.len()
                    && wanted.len() > 0 && (group is Some <==> grouping is Some) && (group is Some
                    ==> is_named(names, group->0, grouping->0)) && forall|i: int|
                    0 <= i < wanted.len() ==> (#[trigger] listed[i]).operation()
                        == wanted[i].function && (listed[i].input() is Some <==> wanted[i].column is Some)
                        && (wanted[i].column is Some ==> is_named(
                        names,
                        listed[i].input()->0,
                        wanted[i].column->0,
                    ))),
            }
            &&& parts.filter is Some <==> query.predicate is Some
            &&& parts.filter matches Some(filter) ==> names.contains(filter.column)
                && same_ignoring_case(filter.column, query.predicate->0.column) && filter.op
                == query.predicate->0.op && filter.value == query.predicate->0.value
            &&& parts.sort is Some <==> query.sort is Some
            &&& parts.sort matches Some(sort) ==> is_named(names, sort.column, query.sort->0.column)
                && sort.direction == query.sort->0.direction && sort.nulls == query.sort->0.nulls
        }),
{
    let names = field_names(source.schema.fields@);
    lemma_same_case(names);
    match query.projection {
        ProjectionModel::All => {},
        ProjectionModel::Columns(wanted) => {
            let columns = parts.columns->0;
            lemma_resolved_at(names, wanted, columns, 0);
            assert forall|i: int| 0 <= i < wanted.len() implies is_named(
                names,
                #[trigger] columns[i],
                wanted[i],
            ) by {
                lemma_resolved_at(names, wanted, columns, i);
            }
        },
        ProjectionModel::Aggregates(grouping, wanted) => {
            lemma_aggregates_resolved(names, wanted);
            let (listed, group) = parts.aggregate->0;
            if let Some(name) = grouping {
                law_resolved_column_is_the_only_match(names, name);
            }
            assert forall|i: int| 0 <= i < wanted.len() implies (#[trigger] listed[i]).operation()
                == wanted[i].function && (listed[i].input() is Some <==> wanted[i].column is Some)
                && (wanted[i].column is Some ==> is_named(
                names,
                listed[i].input()->0,
                wanted[i].column->0,
            )) by {
                assert(aggregate_resolved(names, wanted[i]) == Ok::<AggregateExpr, SqlErrorModel>(
                    listed[i],
                ));
                match wanted[i].column {
                    Some(name) => {
                        law_resolved_column_is_the_only_match(names, name);
                        let index = resolved(names, name)->Ok_0;
                        AggregateExpr::law_expression_has_its_parts(
                            wanted[i].function,
                            Some(index as usize),
                        );
                    },
                    None => {
                        AggregateExpr::law_expression_has_its_parts(AggregateFunction::Count, None);
                    },
                }
            }
        },
    }
    if let Some(predicate) = query.predicate {
        law_resolved_column_is_the_only_match(names, predicate.column);
        let index = resolved(names, predicate.column)->Ok_0;
        assert(names.contains(names[index]));
    }
    if let Some(sort) = query.sort {
        law_resolved_column_is_the_only_match(names, sort.column);
    }
}

proof fn lemma_same_case(names: Seq<Seq<char>>)
    ensures
        forall|i: int|
            0 <= i < names.len() ==> same_ignoring_case(#[trigger] names[i], names[i]),
{
}

/// The name under which the result of an aggregate is shown is the name by which the
/// aggregate is called.
pub proof fn law_shown_names_call_their_aggregates(function: AggregateFunction)
    ensures
        function_of(function_text(function)) == Some(function),
{
    let name = function_text(function);
    law_aggregates_are_called_by_name(name);
    reveal_strlit("COUNT");
    reveal_strlit("SUM");
    reveal_strlit("AVG");
    reveal_strlit("MIN");
    reveal_strlit("MAX");
    assert("COUNT"@ =~= seq!['C', 'O', 'U', 'N', 'T']);
    assert("SUM"@ =~= seq!['S', 'U', 'M']);
    assert("AVG"@ =~= seq!['A', 'V', 'G']);
    assert("MIN"@ =~= seq!['M', 'I', 'N']);
    assert("MAX"@ =~= seq!['M', 'A', 'X']);
    assert(same_ignoring_case(name, name));
}

/// A query that is accepted says what its clauses say: it reads the one table there is, the
/// dataset; its limit, its order and its condition are those that are written; and it has
/// none of the clauses that would say more.
pub proof fn law_query_says_what_its_clauses_say(query: QueryModel, meaning: SqlModel)
    requires
        query_meaning(query) == Ok::<SqlModel, SqlErrorModel>(meaning),
    ensures
        query.select is Some,
        !query.clauses.with && !query.clauses.fetch && query.clauses.locks == 0
            && !query.clauses.for_clause && query.clauses.pipe_operators == 0,
        limit_of(query.limit) == Ok::<Option<usize>, SqlErrorModel>(meaning.limit),
        sort_of(query.order) == Ok::<Option<SortModel>, SqlErrorModel>(meaning.sort),
        ({
            let select = query.select->0;
            &&& !select.clauses.distinct && !select.clauses.top && !select.clauses.having
                && !select.clauses.into && !select.clauses.qualify
            &&& select.tables.len() == 1 && select.tables[0].joins == 0
            &&& select.tables[0].named matches Some((name, alias)) && !alias && same_ignoring_case(
                name,
                seq!['d', 'a', 't', 'a', 's', 'e', 't'],
            )
            &&& projection_of(select.items, select.group) == Ok::<ProjectionModel, SqlErrorModel>(
                meaning.projection,
            )
            &&& select.selection is Some <==> meaning.predicate is Some
            &&& select.selection is Some ==> predicate_of(select.selection->0) == Ok::<
                FilterModel,
                SqlErrorModel,
            >(meaning.predicate->0)
        }),
{
    reveal_strlit("dataset");
    assert("dataset"@ =~= seq!['d', 'a', 't', 'a', 's', 'e', 't']);
}

/// A `SELECT` list that is accepted is a star, or columns, or aggregates, with the column
/// that they are grouped by where there is one; what comes out of it is what it lists.
pub proof fn law_select_list_says_what_it_lists(
    items: Seq<ItemOf<Seq<char>>>,
    group: GroupOf<Seq<char>>,
    projection: ProjectionModel,
)
    requires
        projection_of(items, group) == Ok::<ProjectionModel, SqlErrorModel>(projection),
    ensures
        match projection {
            ProjectionModel::All => items.len() == 1 && items[0] is Wildcard,
            ProjectionModel::Columns(columns) => items == columns.map_values(
                |name: Seq<char>| ItemOf::Expr(ExprOf::Identifier(name)),
            ) && grouping_of(group) == Ok::<Option<Seq<char>>, SqlErrorModel>(None),
            ProjectionModel::Aggregates(grouping, aggregates) => aggregates.len() > 0 && match grouping {
                None => aggregates.len() == items.len(),
                Some(name) => grouping_of(group) == Ok::<Option<Seq<char>>, SqlErrorModel>(
                    Some(name),
                ) && aggregates.len() + 1 == items.len(),
            },
        },
{
    if !(items.len() == 1 && items[0] is Wildcard) {
        if let Ok((columns, aggregates)) = items_of(items) {
            law_items_keep_their_order(items, columns, aggregates);
        }
    }
}

/// A `SELECT` list of columns is accepted as it is, and so is a grouping column.
pub proof fn law_listed_columns_are_accepted(columns: Seq<Seq<char>>, name: Seq<char>)
    requires
        columns.len() > 0,
    ensures
        projection_of(
            columns.map_values(|name: Seq<char>| ItemOf::Expr(ExprOf::Identifier(name))),
            GroupOf::Expressions(0, None, 0),
        ) == Ok::<ProjectionModel, SqlErrorModel>(ProjectionModel::Columns(columns)),
        projection_of(seq![ItemOf::<Seq<char>>::Wildcard], GroupOf::Expressions(0, None, 0)) == Ok::<
            ProjectionModel,
            SqlErrorModel,
        >(ProjectionModel::All),
        grouping_of(GroupOf::Expressions(1, Some(ExprOf::Identifier(name)), 0)) == Ok::<
            Option<Seq<char>>,
            SqlErrorModel,
        >(Some(name)),
{
    lemma_columns_listed(columns);
}

proof fn lemma_columns_listed(columns: Seq<Seq<char>>)
    ensures
        items_of(
            columns.map_values(|name: Seq<char>| ItemOf::Expr(ExprOf::Identifier(name))),
        ) == Ok::<(Seq<Seq<char>>, Seq<AggregateModel>), SqlErrorModel>((columns, Seq::empty())),
    decreases columns.len(),
{
    let items = columns.map_values(|name: Seq<char>| ItemOf::Expr(ExprOf::Identifier(name)));
    if columns.len() > 0 {
        let init = columns.drop_last();
        lemma_columns_listed(init);
        assert(items.drop_last() =~= init.map_values(
            |name: Seq<char>| ItemOf::Expr(ExprOf::Identifier(name)),
        ));
        assert(init.push(columns.last()) =~= columns);
    } else {
        assert(columns =~= Seq::<Seq<char>>::empty());
    }
}

} // verus!
