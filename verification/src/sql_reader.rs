//! Reading SQL text: the parser of the `sqlparser` crate, and the parts of its
//! syntax trees that the explorer looks at.

use sqlparser::ast::{
    BinaryOperator, Expr, Function, FunctionArg, FunctionArgExpr, FunctionArguments, GroupByExpr,
    OrderBy, OrderByKind, Select, SelectItem, SetExpr, Statement, TableFactor, UnaryOperator,
};
use sqlparser::dialect::GenericDialect;
use sqlparser::parser::Parser;

use crate::sql_tree::{
    expr_model, item_model, order_model, select_model, statement_model, statement_models,
    table_model, ArgumentListOf, ArgumentOf, ArgumentsOf, ExprOf, FunctionOf, GroupOf, ItemOf,
    LikeOf, OrderOf, OrderTermOf, OrderTermsOf, QueryClauses, QueryModel, SelectClauses,
    SelectModel, SqlOperator, SqlQuery, SqlSelect, SqlStatement, StatementModel, TableOf,
};
use crate::sql_words::{stays_unanswered, unanswered, unanswered_text};
use vstd::prelude::*;

verus! {

/// A statement of the parser.
#[verifier::external_type_specification]
#[verifier::external_body]
pub struct ExStatement(Statement);

/// A `SELECT` of the parser.
#[verifier::external_type_specification]
#[verifier::external_body]
pub struct ExSelect(Select);

/// An `ORDER BY` clause of the parser.
#[verifier::external_type_specification]
#[verifier::external_body]
pub struct ExOrderBy(OrderBy);

/// An expression of the parser.
#[verifier::external_type_specification]
#[verifier::external_body]
pub struct ExExpr(Expr);

/// A function call of the parser.
#[verifier::external_type_specification]
#[verifier::external_body]
pub struct ExFunction(Function);

/// A binary operator of the parser.
#[verifier::external_type_specification]
#[verifier::external_body]
pub struct ExBinaryOperator(BinaryOperator);

/// The statements that the parser finds in a text, or what it reports.
pub uninterp spec fn sql_statements(sql: Seq<char>) -> Result<Seq<Statement>, Seq<char>>;

/// What a statement of the parser says.
pub uninterp spec fn statement_tree(statement: Statement) -> StatementModel;

/// What a `SELECT` of the parser says.
pub uninterp spec fn select_tree(select: Select) -> SelectModel;

/// What an `ORDER BY` clause of the parser says.
pub uninterp spec fn order_tree(order: OrderBy) -> OrderOf<Seq<char>>;

/// What an expression of the parser says.
pub uninterp spec fn expr_tree(expr: Expr) -> ExprOf<Seq<char>>;

/// What a function call of the parser says.
pub uninterp spec fn function_tree(function: Function) -> FunctionOf<Seq<char>>;

/// Which operator an operator of the parser is.
pub uninterp spec fn operator_tree(operator: BinaryOperator) -> SqlOperator;

/// The parts of a query.
pub struct QueryParts<'a> {
    pub clauses: QueryClauses,
    pub limit: Option<String>,
    pub order: Option<&'a OrderBy>,
    pub select: Option<&'a Select>,
}

/// One item of a `SELECT` list.
pub enum ItemNode<'a> {
    Wildcard,
    QualifiedWildcard,
    Expr(&'a Expr),
    Other,
}

/// The `GROUP BY` clause: its expressions and the number of its modifiers.
pub enum GroupNode<'a> {
    All,
    Expressions(&'a Vec<Expr>, usize),
}

/// One term of an `ORDER BY` clause.
pub struct OrderNode<'a> {
    pub expr: &'a Expr,
    pub has_fill: bool,
    pub ascending: Option<bool>,
    pub nulls_first: Option<bool>,
}

/// An `ORDER BY` clause; without terms it orders by all columns.
pub struct OrderParts<'a> {
    pub interpolated: bool,
    pub terms: Option<Vec<OrderNode<'a>>>,
}

/// One level of an expression.
pub enum ExprNode<'a> {
    Identifier(String),
    Function(&'a Function),
    Binary(&'a Expr, &'a BinaryOperator, &'a Expr),
    Like(bool, bool, &'a Expr, &'a Expr),
    Value(String),
    Negative(&'a Expr),
    Positive(&'a Expr),
    Other,
}

/// A function call without its arguments.
pub struct FunctionParts {
    pub name: String,
    pub odbc_syntax: bool,
    pub has_parameters: bool,
    pub has_filter: bool,
    pub has_null_treatment: bool,
    pub has_over: bool,
    pub within_group: usize,
}

/// One argument of a function call.
pub enum ArgumentNode<'a> {
    Wildcard,
    Expr(&'a Expr),
    Other,
}

/// An argument list.
pub struct ArgumentParts<'a> {
    pub has_duplicate_treatment: bool,
    pub clauses: usize,
    pub arguments: Vec<ArgumentNode<'a>>,
}

/// What an `ORDER BY` clause that may be missing says.
pub open spec fn optional_order_tree(order: Option<&OrderBy>) -> Option<OrderOf<Seq<char>>> {
    match order {
        Some(order) => Some(order_tree(*order)),
        None => None,
    }
}

/// What a `SELECT` that may be missing says.
pub open spec fn optional_select_tree(select: Option<&Select>) -> Option<SelectModel> {
    match select {
        Some(select) => Some(select_tree(*select)),
        None => None,
    }
}

/// What an item says.
pub open spec fn item_tree(item: ItemNode) -> ItemOf<Seq<char>> {
    match item {
        ItemNode::Wildcard => ItemOf::Wildcard,
        ItemNode::QualifiedWildcard => ItemOf::QualifiedWildcard,
        ItemNode::Expr(expr) => ItemOf::Expr(expr_tree(*expr)),
        ItemNode::Other => ItemOf::Other,
    }
}

/// What a `GROUP BY` clause says.
pub open spec fn group_tree(group: GroupNode) -> GroupOf<Seq<char>> {
    match group {
        GroupNode::All => GroupOf::All,
        GroupNode::Expressions(expressions, modifiers) => GroupOf::Expressions(
            expressions@.len() as usize,
            if expressions@.len() > 0 {
                Some(expr_tree(expressions@[0]))
            } else {
                None
            },
            modifiers,
        ),
    }
}

/// What a term of an `ORDER BY` clause says.
pub open spec fn order_node_tree(term: OrderNode) -> OrderTermOf<Seq<char>> {
    OrderTermOf {
        expr: expr_tree(*term.expr),
        has_fill: term.has_fill,
        ascending: term.ascending,
        nulls_first: term.nulls_first,
    }
}

/// What an `ORDER BY` clause says.
pub open spec fn order_parts_tree(order: OrderParts) -> OrderOf<Seq<char>> {
    OrderOf {
        interpolated: order.interpolated,
        terms: match order.terms {
            None => OrderTermsOf::All,
            Some(terms) => OrderTermsOf::Terms(
                terms@.len() as usize,
                if terms@.len() > 0 {
                    Some(order_node_tree(terms@[0]))
                } else {
                    None
                },
            ),
        },
    }
}

/// What one level of an expression says.
pub open spec fn expr_node_tree(node: ExprNode) -> ExprOf<Seq<char>> {
    match node {
        ExprNode::Identifier(name) => ExprOf::Identifier(name@),
        ExprNode::Function(function) => ExprOf::Function(function_tree(*function)),
        ExprNode::Binary(left, op, right) => ExprOf::Binary(
            Box::new(expr_tree(*left)),
            operator_tree(*op),
            Box::new(expr_tree(*right)),
        ),
        ExprNode::Like(negated, any, expr, pattern) => ExprOf::Like(
            LikeOf {
                negated,
                any,
                expr: Box::new(expr_tree(*expr)),
                pattern: Box::new(expr_tree(*pattern)),
            },
        ),
        ExprNode::Value(text) => ExprOf::Value(text@),
        ExprNode::Negative(inner) => ExprOf::Negative(Box::new(expr_tree(*inner))),
        ExprNode::Positive(inner) => ExprOf::Positive(Box::new(expr_tree(*inner))),
        ExprNode::Other => ExprOf::Other,
    }
}

/// What an argument says.
pub open spec fn argument_tree(argument: ArgumentNode) -> ArgumentOf<Seq<char>> {
    match argument {
        ArgumentNode::Wildcard => ArgumentOf::Wildcard,
        ArgumentNode::Expr(expr) => ArgumentOf::Expr(expr_tree(*expr)),
        ArgumentNode::Other => ArgumentOf::Other,
    }
}

/// What the arguments of a function call say.
pub open spec fn arguments_tree(arguments: Option<ArgumentParts>) -> ArgumentsOf<Seq<char>> {
    match arguments {
        None => ArgumentsOf::NoList,
        Some(list) => ArgumentsOf::List(
            ArgumentListOf {
                has_duplicate_treatment: list.has_duplicate_treatment,
                clauses: list.clauses,
                count: list.arguments@.len() as usize,
                first: if list.arguments@.len() > 0 {
                    Some(Box::new(argument_tree(list.arguments@[0])))
                } else {
                    None
                },
            },
        ),
    }
}

/// What a function call with these arguments says.
pub open spec fn function_parts_tree(
    parts: FunctionParts,
    arguments: ArgumentsOf<Seq<char>>,
) -> FunctionOf<Seq<char>> {
    FunctionOf {
        name: parts.name@,
        odbc_syntax: parts.odbc_syntax,
        has_parameters: parts.has_parameters,
        has_filter: parts.has_filter,
        has_null_treatment: parts.has_null_treatment,
        has_over: parts.has_over,
        within_group: parts.within_group,
        arguments,
    }
}

/// `Parser::parse_sql` under the generic dialect: the statements of the text, or
/// the message of the parser. It panics on `SET AUTHORIZATION` without a scope and on
/// `FLUSH RELAY LOGS FOR CHANNEL` without a name, and what it makes of `LIMIT ALL BY`
/// does not always display, so a text with these words in its code is kept from it.
#[verifier::external_body]
fn parse_sql(sql: &str) -> (result: Result<Vec<Statement>, String>)
    requires
        !unanswered(sql@),
    ensures
        match result {
            Ok(statements) => sql_statements(sql@) == Ok::<Seq<Statement>, Seq<char>>(statements@),
            Err(message) => sql_statements(sql@) == Err::<Seq<Statement>, Seq<char>>(message@),
        },
{
    Parser::parse_sql(&GenericDialect {}, sql).map_err(|error| error.to_string())
}

/// The fields of a `Statement::Query`, with its `LIMIT` clause as `Display`
/// writes it; none for any other statement.
#[verifier::external_body]
fn query_parts<'a>(statement: &'a Statement) -> (parts: Option<QueryParts<'a>>)
    ensures
        statement_tree(*statement) == match parts {
            None => StatementModel::Other,
            Some(parts) => StatementModel::Query(
                QueryModel {
                    clauses: parts.clauses,
                    limit: match parts.limit {
                        Some(limit) => Some(limit@),
                        None => None,
                    },
                    order: optional_order_tree(parts.order),
                    select: optional_select_tree(parts.select),
                },
            ),
        },
{
    let Statement::Query(query) = statement else { return None };
    let clauses = QueryClauses {
        with: query.with.is_some(),
        fetch: query.fetch.is_some(),
        locks: query.locks.len(),
        for_clause: query.for_clause.is_some(),
        pipe_operators: query.pipe_operators.len(),
    };
    let limit = query.limit_clause.as_ref().map(|limit| limit.to_string());
    let select = match &*query.body {
        SetExpr::Select(select) => Some(&**select),
        _ => None,
    };
    Some(QueryParts { clauses, limit, order: query.order_by.as_ref(), select })
}

/// Which clauses a `Select` has.
#[verifier::external_body]
fn select_clauses(select: &Select) -> (clauses: SelectClauses)
    ensures
        clauses == select_tree(*select).clauses,
{
    SelectClauses {
        distinct: select.distinct.is_some(),
        top: select.top.is_some(),
        into: select.into.is_some(),
        lateral_views: select.lateral_views.len(),
        prewhere: select.prewhere.is_some(),
        cluster_by: select.cluster_by.len(),
        distribute_by: select.distribute_by.len(),
        sort_by: select.sort_by.len(),
        having: select.having.is_some(),
        named_windows: select.named_window.len(),
        qualify: select.qualify.is_some(),
        connect_by: select.connect_by.len(),
    }
}

/// The tables of a `Select`, with their names as `Display` writes them.
#[verifier::external_body]
fn select_tables(select: &Select) -> (tables: Vec<TableOf<String>>)
    ensures
        tables@.map_values(|table: TableOf<String>| table_model(table)) == select_tree(
            *select,
        ).tables,
{
    select.from.iter().map(|table| TableOf {
        joins: table.joins.len(),
        named: match &table.relation {
            TableFactor::Table { name, alias, .. } => Some((name.to_string(), alias.is_some())),
            _ => None,
        },
    }).collect()
}

/// The items of a `Select`.
#[verifier::external_body]
fn select_items<'a>(select: &'a Select) -> (items: Vec<ItemNode<'a>>)
    ensures
        items@.map_values(|item: ItemNode<'a>| item_tree(item)) == select_tree(*select).items,
{
    select.projection.iter().map(|item| match item {
        SelectItem::Wildcard(_) => ItemNode::Wildcard,
        SelectItem::QualifiedWildcard(_, _) => ItemNode::QualifiedWildcard,
        SelectItem::UnnamedExpr(expr) => ItemNode::Expr(expr),
        _ => ItemNode::Other,
    }).collect()
}

/// The `GROUP BY` clause of a `Select`.
#[verifier::external_body]
fn select_group<'a>(select: &'a Select) -> (group: GroupNode<'a>)
    ensures
        group_tree(group) == select_tree(*select).group,
{
    match &select.group_by {
        GroupByExpr::All(_) => GroupNode::All,
        GroupByExpr::Expressions(expressions, modifiers) => {
            GroupNode::Expressions(expressions, modifiers.len())
        }
    }
}

/// The `WHERE` clause of a `Select`.
#[verifier::external_body]
fn select_filter<'a>(select: &'a Select) -> (filter: Option<&'a Expr>)
    ensures
        select_tree(*select).selection == match filter {
            Some(expr) => Some(expr_tree(*expr)),
            None => None,
        },
{
    select.selection.as_ref()
}

/// The terms of an `OrderBy`.
#[verifier::external_body]
fn order_parts<'a>(order: &'a OrderBy) -> (parts: OrderParts<'a>)
    ensures
        order_parts_tree(parts) == order_tree(*order),
{
    let terms = match &order.kind {
        OrderByKind::All(_) => None,
        OrderByKind::Expressions(terms) => Some(terms.iter().map(|term| OrderNode {
            expr: &term.expr,
            has_fill: term.with_fill.is_some(),
            ascending: term.options.asc,
            nulls_first: term.options.nulls_first,
        }).collect()),
    };
    OrderParts { interpolated: order.interpolate.is_some(), terms }
}

/// One level of an `Expr`, with a literal as `Display` writes it.
#[verifier::external_body]
fn expr_node<'a>(expr: &'a Expr) -> (node: ExprNode<'a>)
    ensures
        expr_node_tree(node) == expr_tree(*expr),
{
    match expr {
        Expr::Identifier(identifier) => ExprNode::Identifier(identifier.value.clone()),
        Expr::Function(function) => ExprNode::Function(function),
        Expr::BinaryOp { left, op, right } => ExprNode::Binary(left, op, right),
        Expr::Like { negated, any, expr, pattern, .. } => {
            ExprNode::Like(*negated, *any, expr, pattern)
        }
        Expr::Value(_) => ExprNode::Value(expr.to_string()),
        Expr::UnaryOp { op: UnaryOperator::Minus, expr } => ExprNode::Negative(expr),
        Expr::UnaryOp { op: UnaryOperator::Plus, expr } => ExprNode::Positive(expr),
        _ => ExprNode::Other,
    }
}

/// Which operator a `BinaryOperator` is.
#[verifier::external_body]
fn operator_of(operator: &BinaryOperator) -> (which: SqlOperator)
    ensures
        which == operator_tree(*operator),
{
    match operator {
        BinaryOperator::And => SqlOperator::And,
        BinaryOperator::Eq => SqlOperator::Eq,
        BinaryOperator::NotEq => SqlOperator::NotEq,
        BinaryOperator::Gt => SqlOperator::Gt,
        BinaryOperator::GtEq => SqlOperator::GtEq,
        BinaryOperator::Lt => SqlOperator::Lt,
        BinaryOperator::LtEq => SqlOperator::LtEq,
        _ => SqlOperator::Other,
    }
}

/// The fields of a `Function` but its arguments, with its name as `Display`
/// writes it.
#[verifier::external_body]
fn function_parts(function: &Function) -> (parts: FunctionParts)
    ensures
        function_tree(*function) == function_parts_tree(parts, function_tree(*function).arguments),
{
    FunctionParts {
        name: function.name.to_string(),
        odbc_syntax: function.uses_odbc_syntax,
        has_parameters: !matches!(function.parameters, FunctionArguments::None),
        has_filter: function.filter.is_some(),
        has_null_treatment: function.null_treatment.is_some(),
        has_over: function.over.is_some(),
        within_group: function.within_group.len(),
    }
}

/// The argument list of a `Function`.
#[verifier::external_body]
fn function_arguments<'a>(function: &'a Function) -> (arguments: Option<ArgumentParts<'a>>)
    ensures
        arguments_tree(arguments) == function_tree(*function).arguments,
{
    let FunctionArguments::List(list) = &function.args else { return None };
    let arguments = list.args.iter().map(|argument| match argument {
        FunctionArg::Unnamed(FunctionArgExpr::Wildcard) => ArgumentNode::Wildcard,
        FunctionArg::Unnamed(FunctionArgExpr::Expr(expr)) => ArgumentNode::Expr(expr),
        _ => ArgumentNode::Other,
    }).collect();
    Some(ArgumentParts {
        has_duplicate_treatment: list.duplicate_treatment.is_some(),
        clauses: list.clauses.len(),
        arguments,
    })
}

fn read_expr(expr: &Expr) -> (read: ExprOf<String>)
    ensures
        expr_model(read) == expr_tree(*expr),
    decreases expr_tree(*expr),
{
    let ghost tree = expr_tree(*expr);
    match expr_node(expr) {
        ExprNode::Identifier(name) => ExprOf::Identifier(name),
        ExprNode::Function(function) => {
            let parts = function_parts(function);
            let arguments = match function_arguments(function) {
                None => ArgumentsOf::NoList,
                Some(list) => {
                    let count: usize = list.arguments.len();
                    let first: Option<Box<ArgumentOf<String>>> = if count > 0 {
                        match &list.arguments[0] {
                            ArgumentNode::Wildcard => Some(Box::new(ArgumentOf::Wildcard)),
                            ArgumentNode::Expr(inner) => {
                                proof {
                                    let call = tree->Function_0;
                                    let held = call.arguments->List_0;
                                    let argument = *(held.first->0);
                                    let child = argument->Expr_0;
                                    assert(decreases_to!(tree => call));
                                    assert(decreases_to!(call => call.arguments));
                                    assert(decreases_to!(call.arguments => held));
                                    assert(decreases_to!(held => held.first));
                                    assert(decreases_to!(held.first => argument));
                                    assert(decreases_to!(argument => child));
                                    assert(child == expr_tree(**inner));
                                }
                                Some(Box::new(ArgumentOf::Expr(read_expr(inner))))
                            },
                            ArgumentNode::Other => Some(Box::new(ArgumentOf::Other)),
                        }
                    } else {
                        None
                    };
                    ArgumentsOf::List(
                        ArgumentListOf {
                            has_duplicate_treatment: list.has_duplicate_treatment,
                            clauses: list.clauses,
                            count,
                            first,
                        },
                    )
                },
            };
            ExprOf::Function(
                FunctionOf {
                    name: parts.name,
                    odbc_syntax: parts.odbc_syntax,
                    has_parameters: parts.has_parameters,
                    has_filter: parts.has_filter,
                    has_null_treatment: parts.has_null_treatment,
                    has_over: parts.has_over,
                    within_group: parts.within_group,
                    arguments,
                },
            )
        },
        ExprNode::Binary(left, op, right) => {
            proof {
                assert(decreases_to!(tree => *(tree->Binary_0)));
                assert(decreases_to!(tree => *(tree->Binary_2)));
            }
            ExprOf::Binary(Box::new(read_expr(left)), operator_of(op), Box::new(read_expr(right)))
        },
        ExprNode::Like(negated, any, inner, pattern) => {
            proof {
                let like = tree->Like_0;
                assert(decreases_to!(tree => like));
                assert(decreases_to!(like => *like.expr));
                assert(decreases_to!(like => *like.pattern));
            }
            ExprOf::Like(
                LikeOf {
                    negated,
                    any,
                    expr: Box::new(read_expr(inner)),
                    pattern: Box::new(read_expr(pattern)),
                },
            )
        },
        ExprNode::Value(text) => ExprOf::Value(text),
        ExprNode::Negative(inner) => {
            proof {
                assert(decreases_to!(tree => *(tree->Negative_0)));
            }
            ExprOf::Negative(Box::new(read_expr(inner)))
        },
        ExprNode::Positive(inner) => {
            proof {
                assert(decreases_to!(tree => *(tree->Positive_0)));
            }
            ExprOf::Positive(Box::new(read_expr(inner)))
        },
        ExprNode::Other => ExprOf::Other,
    }
}

fn read_items(select: &Select) -> (items: Vec<ItemOf<String>>)
    ensures
        items@.map_values(|item: ItemOf<String>| item_model(item)) == select_tree(*select).items,
{
    let nodes = select_items(select);
    let ghost trees = select_tree(*select).items;
    let mut items: Vec<ItemOf<String>> = Vec::new();
    let mut i: usize = 0;
    while i < nodes.len()
        invariant
            i <= nodes@.len(),
            trees == nodes@.map_values(|item: ItemNode| item_tree(item)),
            items@.len() == i,
            forall|k: int| 0 <= k < i ==> item_model(#[trigger] items@[k]) == trees[k],
        decreases nodes@.len() - i,
    {
        assert(trees[i as int] == item_tree(nodes@[i as int]));
        let item = match &nodes[i] {
            ItemNode::Wildcard => ItemOf::Wildcard,
            ItemNode::QualifiedWildcard => ItemOf::QualifiedWildcard,
            ItemNode::Expr(expr) => ItemOf::Expr(read_expr(expr)),
            ItemNode::Other => ItemOf::Other,
        };
        items.push(item);
        i = i + 1;
    }
    assert(items@.map_values(|item: ItemOf<String>| item_model(item)) =~= trees);
    items
}

fn read_select(select: &Select) -> (read: SqlSelect)
    ensures
        select_model(read) == select_tree(*select),
{
    let group = match select_group(select) {
        GroupNode::All => GroupOf::All,
        GroupNode::Expressions(expressions, modifiers) => {
            let count: usize = expressions.len();
            let first = if count > 0 {
                Some(read_expr(&expressions[0]))
            } else {
                None
            };
            GroupOf::Expressions(count, first, modifiers)
        },
    };
    let selection = match select_filter(select) {
        Some(expr) => Some(read_expr(expr)),
        None => None,
    };
    SqlSelect {
        clauses: select_clauses(select),
        tables: select_tables(select),
        items: read_items(select),
        group,
        selection,
    }
}

fn read_order(order: &OrderBy) -> (read: OrderOf<String>)
    ensures
        order_model(read) == order_tree(*order),
{
    let parts = order_parts(order);
    let terms = match &parts.terms {
        None => OrderTermsOf::All,
        Some(terms) => {
            let count: usize = terms.len();
            let first = if count > 0 {
                Some(
                    OrderTermOf {
                        expr: read_expr(terms[0].expr),
                        has_fill: terms[0].has_fill,
                        ascending: terms[0].ascending,
                        nulls_first: terms[0].nulls_first,
                    },
                )
            } else {
                None
            };
            OrderTermsOf::Terms(count, first)
        },
    };
    OrderOf { interpolated: parts.interpolated, terms }
}

fn read_statement(statement: &Statement) -> (read: SqlStatement)
    ensures
        statement_model(read) == statement_tree(*statement),
{
    match query_parts(statement) {
        None => SqlStatement::Other,
        Some(parts) => {
            let order = match parts.order {
                Some(order) => Some(read_order(order)),
                None => None,
            };
            let select = match parts.select {
                Some(select) => Some(read_select(select)),
                None => None,
            };
            SqlStatement::Query(
                SqlQuery { clauses: parts.clauses, limit: parts.limit, order, select },
            )
        },
    }
}

/// What the statements of a text say, or what the parser reports. A text that it may
/// not answer is refused.
pub open spec fn sql_models(sql: Seq<char>) -> Result<Seq<StatementModel>, Seq<char>> {
    if unanswered(sql) {
        Err(unanswered_text())
    } else {
        match sql_statements(sql) {
            Ok(statements) => Ok(
                statements.map_values(|statement: Statement| statement_tree(statement)),
            ),
            Err(message) => Err(message),
        }
    }
}

/// Reads the statements of a text.
pub fn read_statements(sql: &str) -> (result: Result<Vec<SqlStatement>, String>)
    ensures
        match result {
            Ok(statements) => sql_models(sql@) == Ok::<Seq<StatementModel>, Seq<char>>(
                statement_models(statements@),
            ),
            Err(message) => sql_models(sql@) == Err::<Seq<StatementModel>, Seq<char>>(message@),
        },
{
    if stays_unanswered(sql) {
        return Err(
            "SET AUTHORIZATION, FLUSH RELAY LOGS FOR CHANNEL and LIMIT ALL BY cannot be read"
                .to_owned(),
        );
    }
    let parsed = match parse_sql(sql) {
        Ok(parsed) => parsed,
        Err(message) => return Err(message),
    };
    let mut statements: Vec<SqlStatement> = Vec::new();
    let mut i: usize = 0;
    while i < parsed.len()
        invariant
            i <= parsed@.len(),
            statements@.len() == i,
            forall|k: int|
                0 <= k < i ==> statement_model(#[trigger] statements@[k]) == statement_tree(
                    parsed@[k],
                ),
        decreases parsed@.len() - i,
    {
        statements.push(read_statement(&parsed[i]));
        i = i + 1;
    }
    assert(statement_models(statements@) =~= parsed@.map_values(
        |statement: Statement| statement_tree(statement),
    ));
    Ok(statements)
}

} // verus!
