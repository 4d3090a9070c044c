//! The parts of a parsed SQL statement that the explorer looks at. `T` is
//! `String` in a tree that is held, and `Seq<char>` in what it says.

use vstd::prelude::*;

verus! {

/// A binary operator.
#[derive(Clone, Copy, Debug, PartialEq, Eq, Structural)]
pub enum SqlOperator {
    And,
    Eq,
    NotEq,
    Gt,
    GtEq,
    Lt,
    LtEq,
    Other,
}

/// An expression.
#[derive(Debug)]
pub enum ExprOf<T> {
    Identifier(T),
    Function(FunctionOf<T>),
    Binary(Box<ExprOf<T>>, SqlOperator, Box<ExprOf<T>>),
    Like(LikeOf<T>),
    /// A literal, as SQL writes it.
    Value(T),
    Negative(Box<ExprOf<T>>),
    Positive(Box<ExprOf<T>>),
    Other,
}

/// A `LIKE` predicate.
#[derive(Debug)]
pub struct LikeOf<T> {
    pub negated: bool,
    pub any: bool,
    pub expr: Box<ExprOf<T>>,
    pub pattern: Box<ExprOf<T>>,
}

/// A function call.
#[derive(Debug)]
pub struct FunctionOf<T> {
    pub name: T,
    pub odbc_syntax: bool,
    pub has_parameters: bool,
    pub has_filter: bool,
    pub has_null_treatment: bool,
    pub has_over: bool,
    pub within_group: usize,
    pub arguments: ArgumentsOf<T>,
}

/// The arguments of a function call.
#[derive(Debug)]
pub enum ArgumentsOf<T> {
    /// There is no argument list in parentheses.
    NoList,
    List(ArgumentListOf<T>),
}

/// An argument list: how many arguments there are, and the first one.
#[derive(Debug)]
pub struct ArgumentListOf<T> {
    pub has_duplicate_treatment: bool,
    pub clauses: usize,
    pub count: usize,
    pub first: Option<Box<ArgumentOf<T>>>,
}

/// One argument of a function call.
#[derive(Debug)]
pub enum ArgumentOf<T> {
    Wildcard,
    Expr(ExprOf<T>),
    Other,
}

/// One item of a `SELECT` list.
#[derive(Debug)]
pub enum ItemOf<T> {
    Wildcard,
    QualifiedWildcard,
    Expr(ExprOf<T>),
    Other,
}

/// One item of a `FROM` list.
#[derive(Debug)]
pub struct TableOf<T> {
    pub joins: usize,
    /// The name as SQL writes it, and whether it has an alias; none where this
    /// is no table.
    pub named: Option<(T, bool)>,
}

/// The `GROUP BY` clause.
#[derive(Debug)]
pub enum GroupOf<T> {
    All,
    /// How many expressions there are, the first one, and how many modifiers.
    Expressions(usize, Option<ExprOf<T>>, usize),
}

/// One term of an `ORDER BY` clause.
#[derive(Debug)]
pub struct OrderTermOf<T> {
    pub expr: ExprOf<T>,
    pub has_fill: bool,
    pub ascending: Option<bool>,
    pub nulls_first: Option<bool>,
}

/// The `ORDER BY` clause.
#[derive(Debug)]
pub struct OrderOf<T> {
    pub interpolated: bool,
    pub terms: OrderTermsOf<T>,
}

/// What an `ORDER BY` clause orders by.
#[derive(Debug)]
pub enum OrderTermsOf<T> {
    All,
    /// How many terms there are, and the first one.
    Terms(usize, Option<OrderTermOf<T>>),
}

/// The clauses of a `SELECT` that only matter by being there.
#[derive(Clone, Copy, Debug, PartialEq, Eq, Structural)]
pub struct SelectClauses {
    pub distinct: bool,
    pub top: bool,
    pub into: bool,
    pub lateral_views: usize,
    pub prewhere: bool,
    pub cluster_by: usize,
    pub distribute_by: usize,
    pub sort_by: usize,
    pub having: bool,
    pub named_windows: usize,
    pub qualify: bool,
    pub connect_by: usize,
}

/// The clauses of a query that only matter by being there.
#[derive(Clone, Copy, Debug, PartialEq, Eq, Structural)]
pub struct QueryClauses {
    pub with: bool,
    pub fetch: bool,
    pub locks: usize,
    pub for_clause: bool,
    pub pipe_operators: usize,
}

/// A `SELECT`.
#[derive(Debug)]
pub struct SqlSelect {
    pub clauses: SelectClauses,
    pub tables: Vec<TableOf<String>>,
    pub items: Vec<ItemOf<String>>,
    pub group: GroupOf<String>,
    pub selection: Option<ExprOf<String>>,
}

/// What a `SELECT` says.
pub struct SelectModel {
    pub clauses: SelectClauses,
    pub tables: Seq<TableOf<Seq<char>>>,
    pub items: Seq<ItemOf<Seq<char>>>,
    pub group: GroupOf<Seq<char>>,
    pub selection: Option<ExprOf<Seq<char>>>,
}

/// A query.
#[derive(Debug)]
pub struct SqlQuery {
    pub clauses: QueryClauses,
    /// The `LIMIT` clause as SQL writes it.
    pub limit: Option<String>,
    pub order: Option<OrderOf<String>>,
    /// The body, where it is one `SELECT`.
    pub select: Option<SqlSelect>,
}

/// What a query says.
pub struct QueryModel {
    pub clauses: QueryClauses,
    pub limit: Option<Seq<char>>,
    pub order: Option<OrderOf<Seq<char>>>,
    pub select: Option<SelectModel>,
}

/// A statement: a query, or anything else.
#[derive(Debug)]
pub enum SqlStatement {
    Query(SqlQuery),
    Other,
}

/// What a statement says.
pub enum StatementModel {
    Query(QueryModel),
    Other,
}

/// What an expression says.
pub open spec fn expr_model(expr: ExprOf<String>) -> ExprOf<Seq<char>>
    decreases expr,
{
    match expr {
        ExprOf::Identifier(name) => ExprOf::Identifier(name@),
        ExprOf::Function(function) => ExprOf::Function(
            FunctionOf {
                name: function.name@,
                odbc_syntax: function.odbc_syntax,
                has_parameters: function.has_parameters,
                has_filter: function.has_filter,
                has_null_treatment: function.has_null_treatment,
                has_over: function.has_over,
                within_group: function.within_group,
                arguments: match function.arguments {
                    ArgumentsOf::NoList => ArgumentsOf::NoList,
                    ArgumentsOf::List(list) => ArgumentsOf::List(
                        ArgumentListOf {
                            has_duplicate_treatment: list.has_duplicate_treatment,
                            clauses: list.clauses,
                            count: list.count,
                            first: match list.first {
                                None => None,
                                Some(argument) => Some(
                                    Box::new(
                                        match *argument {
                                            ArgumentOf::Wildcard => ArgumentOf::Wildcard,
                                            ArgumentOf::Expr(inner) => ArgumentOf::Expr(
                                                expr_model(inner),
                                            ),
                                            ArgumentOf::Other => ArgumentOf::Other,
                                        },
                                    ),
                                ),
                            },
                        },
                    ),
                },
            },
        ),
        ExprOf::Binary(left, op, right) => ExprOf::Binary(
            Box::new(expr_model(*left)),
            op,
            Box::new(expr_model(*right)),
        ),
        ExprOf::Like(like) => ExprOf::Like(
            LikeOf {
                negated: like.negated,
                any: like.any,
                expr: Box::new(expr_model(*like.expr)),
                pattern: Box::new(expr_model(*like.pattern)),
            },
        ),
        ExprOf::Value(text) => ExprOf::Value(text@),
        ExprOf::Negative(inner) => ExprOf::Negative(Box::new(expr_model(*inner))),
        ExprOf::Positive(inner) => ExprOf::Positive(Box::new(expr_model(*inner))),
        ExprOf::Other => ExprOf::Other,
    }
}

/// What an expression that may be missing says.
pub open spec fn optional_expr_model(expr: Option<ExprOf<String>>) -> Option<ExprOf<Seq<char>>> {
    match expr {
        Some(expr) => Some(expr_model(expr)),
        None => None,
    }
}

/// What an item of a `SELECT` list says.
pub open spec fn item_model(item: ItemOf<String>) -> ItemOf<Seq<char>> {
    match item {
        ItemOf::Wildcard => ItemOf::Wildcard,
        ItemOf::QualifiedWildcard => ItemOf::QualifiedWildcard,
        ItemOf::Expr(expr) => ItemOf::Expr(expr_model(expr)),
        ItemOf::Other => ItemOf::Other,
    }
}

/// What an item of a `FROM` list says.
pub open spec fn table_model(table: TableOf<String>) -> TableOf<Seq<char>> {
    TableOf {
        joins: table.joins,
        named: match table.named {
            Some((name, alias)) => Some((name@, alias)),
            None => None,
        },
    }
}

/// What a `GROUP BY` clause says.
pub open spec fn group_model(group: GroupOf<String>) -> GroupOf<Seq<char>> {
    match group {
        GroupOf::All => GroupOf::All,
        GroupOf::Expressions(count, first, modifiers) => GroupOf::Expressions(
            count,
            optional_expr_model(first),
            modifiers,
        ),
    }
}

/// What a term of an `ORDER BY` clause says.
pub open spec fn order_term_model(term: OrderTermOf<String>) -> OrderTermOf<Seq<char>> {
    OrderTermOf {
        expr: expr_model(term.expr),
        has_fill: term.has_fill,
        ascending: term.ascending,
        nulls_first: term.nulls_first,
    }
}

/// What an `ORDER BY` clause says.
pub open spec fn order_model(order: OrderOf<String>) -> OrderOf<Seq<char>> {
    OrderOf {
        interpolated: order.interpolated,
        terms: match order.terms {
            OrderTermsOf::All => OrderTermsOf::All,
            OrderTermsOf::Terms(count, first) => OrderTermsOf::Terms(
                count,
                match first {
                    Some(term) => Some(order_term_model(term)),
                    None => None,
                },
            ),
        },
    }
}

/// What a `SELECT` says.
pub open spec fn select_model(select: SqlSelect) -> SelectModel {
    SelectModel {
        clauses: select.clauses,
        tables: select.tables@.map_values(|table: TableOf<String>| table_model(table)),
        items: select.items@.map_values(|item: ItemOf<String>| item_model(item)),
        group: group_model(select.group),
        selection: optional_expr_model(select.selection),
    }
}

/// What a query says.
pub open spec fn query_model(query: SqlQuery) -> QueryModel {
    QueryModel {
        clauses: query.clauses,
        limit: match query.limit {
            Some(limit) => Some(limit@),
            None => None,
        },
        order: match query.order {
            Some(order) => Some(order_model(order)),
            None => None,
        },
        select: match query.select {
            Some(select) => Some(select_model(select)),
            None => None,
        },
    }
}

/// What a statement says.
pub open spec fn statement_model(statement: SqlStatement) -> StatementModel {
    match statement {
        SqlStatement::Query(query) => StatementModel::Query(query_model(query)),
        SqlStatement::Other => StatementModel::Other,
    }
}

/// What a list of statements says.
pub open spec fn statement_models(statements: Seq<SqlStatement>) -> Seq<StatementModel> {
    statements.map_values(|statement: SqlStatement| statement_model(statement))
}

} // verus!
