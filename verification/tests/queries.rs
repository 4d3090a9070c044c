use std::sync::Arc;

use pavi::aggregate::{AggregateExpr, AggregateFunction};
use pavi::filter::FilterOp;
use pavi::logical::{Filter, LogicalPlan, PlanStep};
use pavi::messages::sql_message;
use pavi::metadata::DatasetMetadata;
use pavi::planner::{PlanError, Planner};
use pavi::prepared::{
    prepare_filter, prepare_sort, prepare_sql, toggled_direction, PrepareError,
};
use pavi::results::QueryKind;
use pavi::schema::{DataType, Field, Schema};
use pavi::sort::{NullOrder, SortDirection, SortSpec};
use pavi::sql::{
    resolve_column, SqlAggregate, SqlAggregateExpr, SqlAst, SqlErrorOf, SqlPredicate,
    SqlProjection,
};
use pavi::sql_words::stays_unanswered;

fn field(name: &str, data_type: DataType) -> Field {
    Field {
        name: name.to_string(),
        data_type,
        type_text: format!("{data_type:?}"),
        nullable: true,
        children: Vec::new(),
    }
}

fn dataset() -> Arc<DatasetMetadata> {
    let schema = Schema {
        fields: vec![
            field("id", DataType::Int32),
            field("name", DataType::Utf8),
            field("enabled", DataType::Boolean),
            field("raw", DataType::Binary),
            field("Value", DataType::Float64),
            field("VALUE", DataType::Float64),
        ],
    };
    Arc::new(DatasetMetadata::new(schema, vec![10, 5]).unwrap())
}

fn refusal(sql: &str) -> String {
    let source = dataset();
    let error = SqlAst::parse(sql)
        .and_then(|ast| ast.to_logical_plan(Arc::clone(&source)))
        .unwrap_err();
    sql_message(&error, &source.schema)
}

#[test]
fn every_unsupported_statement_is_named() {
    for (sql, message) in [
        (
            "SELECT * FROM dataset; SELECT * FROM dataset",
            "SQL input must contain exactly one statement",
        ),
        ("", "SQL input must contain exactly one statement"),
        ("DELETE FROM dataset", "only SELECT queries are supported"),
        (
            "WITH x AS (SELECT 1) SELECT * FROM dataset",
            "WITH queries are not supported",
        ),
        (
            "SELECT * FROM dataset FETCH FIRST 1 ROWS ONLY",
            "FETCH is not supported; use LIMIT",
        ),
        (
            "SELECT * FROM dataset FOR UPDATE",
            "locking and pipe clauses are not supported",
        ),
        (
            "SELECT * FROM dataset OFFSET 3",
            "only LIMIT <non-negative integer> is supported: OFFSET 3",
        ),
        (
            "SELECT * FROM dataset LIMIT 1 OFFSET 1",
            "LIMIT must be a non-negative integer",
        ),
        (
            "SELECT * FROM dataset LIMIT -1",
            "LIMIT must be a non-negative integer",
        ),
        (
            "SELECT * FROM dataset ORDER BY id INTERPOLATE",
            "ORDER BY INTERPOLATE is not supported",
        ),
        (
            "SELECT * FROM dataset ORDER BY id, name",
            "ORDER BY supports exactly one column",
        ),
        (
            "SELECT * FROM dataset ORDER BY id WITH FILL",
            "ORDER BY WITH FILL is not supported",
        ),
        (
            "SELECT * FROM dataset ORDER BY 1",
            "the left side of WHERE must be a column name",
        ),
        (
            "SELECT * FROM dataset UNION SELECT * FROM dataset",
            "only a single SELECT is supported",
        ),
        (
            "SELECT DISTINCT id FROM dataset",
            "SELECT DISTINCT and TOP are not supported",
        ),
        (
            "SELECT id FROM dataset HAVING id > 1",
            "this SELECT clause is not supported",
        ),
        (
            "SELECT id FROM dataset, dataset",
            "SELECT must read exactly one dataset",
        ),
        (
            "SELECT id FROM dataset JOIN dataset",
            "JOIN is not supported",
        ),
        (
            "SELECT id FROM (SELECT * FROM dataset)",
            "FROM must name the dataset",
        ),
        (
            "SELECT id FROM dataset AS d",
            "FROM must be the single dataset named `dataset`",
        ),
        (
            "SELECT id FROM other",
            "FROM must be the single dataset named `dataset`",
        ),
        (
            "SELECT * FROM dataset GROUP BY id",
            "SELECT * cannot be combined with GROUP BY",
        ),
        (
            "SELECT COUNT(*) FROM dataset GROUP BY id, name",
            "GROUP BY supports exactly one column",
        ),
        (
            "SELECT *, id FROM dataset",
            "SELECT * cannot be combined with explicit columns",
        ),
        (
            "SELECT id + 1 FROM dataset",
            "SELECT items must be column names or supported aggregates",
        ),
        (
            "SELECT id FROM dataset GROUP BY id",
            "GROUP BY requires at least one aggregate",
        ),
        (
            "SELECT id, COUNT(*) FROM dataset",
            "aggregate SELECT cannot include ordinary columns without GROUP BY",
        ),
        (
            "SELECT name, COUNT(*) FROM dataset GROUP BY id",
            "SELECT may include only the GROUP BY column and aggregate expressions",
        ),
        (
            "SELECT COUNT(*) FROM dataset GROUP BY id",
            "SELECT may include only the GROUP BY column and aggregate expressions",
        ),
        (
            "SELECT COUNT(*) FILTER (WHERE id > 1) FROM dataset",
            "aggregate modifiers are not supported",
        ),
        (
            "SELECT COUNT(DISTINCT id) FROM dataset",
            "DISTINCT and aggregate argument clauses are not supported",
        ),
        (
            "SELECT median(id) FROM dataset",
            "unsupported aggregate MEDIAN",
        ),
        ("SELECT SUM(*) FROM dataset", "only COUNT may use *"),
        (
            "SELECT SUM(id, name) FROM dataset",
            "aggregate needs exactly one column argument",
        ),
        (
            "SELECT id FROM dataset WHERE id = 1 AND id = 2",
            "AND is not supported because a PAVI query has one filter predicate",
        ),
        (
            "SELECT id FROM dataset WHERE id + 1",
            "WHERE supports =, !=, >, >=, <, <=, or LIKE '%text%'",
        ),
        (
            "SELECT id FROM dataset WHERE name NOT LIKE '%a%'",
            "WHERE supports only LIKE '%text%' for contains matching",
        ),
        (
            "SELECT id FROM dataset WHERE name LIKE 'a%'",
            "LIKE must use a contains pattern such as LIKE '%text%'",
        ),
        (
            "SELECT id FROM dataset WHERE name LIKE '%a_b%'",
            "LIKE supports only one leading and trailing % for contains matching",
        ),
        (
            "SELECT id FROM dataset WHERE id IS NULL",
            "WHERE must be one supported column predicate",
        ),
        (
            "SELECT id FROM dataset WHERE id = name",
            "the right side of WHERE must be a string, number, or boolean literal",
        ),
        (
            "SELECT missing FROM dataset",
            "unknown SQL column 'missing'",
        ),
        (
            "SELECT value FROM dataset",
            "SQL column 'value' is ambiguous when matched case-insensitively",
        ),
        (
            "SELECT COUNT(*) FROM dataset ORDER BY id",
            "ORDER BY aggregate results is not supported",
        ),
        (
            "SELECT * FROM dataset WHERE id LIKE '%2%'",
            "validate SQL query: validate query filter: contains is only supported for UTF-8 columns",
        ),
        (
            "SELECT raw FROM dataset ORDER BY raw",
            "validate SQL query: validate query sort: sorting is not supported for Binary columns",
        ),
        (
            "SELECT SUM(name) FROM dataset",
            "validate SQL query: validate query aggregate: Sum is not supported for Utf8 columns",
        ),
        (
            "SELECT id, ID FROM dataset",
            "validate SQL query: validate query projection: duplicate column index 0",
        ),
    ] {
        assert_eq!(refusal(sql), message, "{sql}");
    }
    assert!(refusal("SELECT FROM").starts_with("parse SQL: "));
}

#[test]
fn statements_that_stay_unanswered_are_refused() {
    let message = "parse SQL: SET AUTHORIZATION, FLUSH RELAY LOGS FOR CHANNEL and \
                   LIMIT ALL BY cannot be read";
    for sql in [
        "SET AUTHORIZATION DEFAULT",
        "set authorization someone",
        "SELECT * FROM dataset; SET\n\tAUTHORIZATION DEFAULT",
        "SET /* a scope */ AUTHORIZATION DEFAULT",
        "SET -- a scope\n AUTHORIZATION DEFAULT",
        "SET HIVEVAR: AUTHORIZATION DEFAULT",
        "WHILE 1 = 0x1fSET AUTHORIZATION DEFAULT",
        "FLUSH RELAY LOGS FOR CHANNEL",
        "FLUSH LOCAL RELAY LOGS FOR CHANNEL;",
        "SELECT 1; flush relay logs for channel",
        "SELECT * FROM dataset LIMIT ALL BY id",
        "/*! SET AUTHORIZATION DEFAULT */",
        "SET /* a /* nested */ scope */ AUTHORIZATION DEFAULT",
        "SELECT E'\\'' ; SET AUTHORIZATION DEFAULT",
        "SELECT $$'$$; SET AUTHORIZATION DEFAULT",
        "SELECT 1 <--1; SET AUTHORIZATION DEFAULT",
        "SELECT 8 //* 2; SET AUTHORIZATION DEFAULT",
        "SELECT 'it''s'; SET AUTHORIZATION DEFAULT",
        "SELECT \"a'b\"; SET AUTHORIZATION DEFAULT",
        "-- it's\nSET AUTHORIZATION DEFAULT",
        "/* it's */SET AUTHORIZATION DEFAULT",
    ] {
        assert_eq!(refusal(sql), message, "{sql}");
        assert!(stays_unanswered(sql));
    }
    for sql in [
        "SELECT authorization FROM dataset",
        "SELECT id FROM dataset WHERE authorization = 'x'",
        "SELECT relay, channel, logs FROM dataset",
        "SELECT id FROM dataset WHERE note = 'limit all' ORDER BY id",
        "SELECT offset_ FROM dataset -- all",
        "SELECT id FROM dataset LIMIT 5 -- all of them by id",
        "SELECT id FROM dataset LIMIT 5 /* not limit all by id */",
        "-- set authorization\nSELECT id FROM dataset",
        "SELECT id FROM dataset WHERE name = 'set authorization'",
        "SELECT id FROM dataset WHERE name = 'it''s set authorization'",
        "SELECT \"relay logs for channel\" FROM dataset",
        "SELECT `limit all by` FROM dataset -- it's",
    ] {
        assert!(!stays_unanswered(sql), "{sql}");
        SqlAst::parse(sql).unwrap();
    }
    assert_ne!(refusal("SET SESSION AUTHORIZATION DEFAULT"), message);
    assert_ne!(refusal("FLUSH RELAY LOGS"), message);
}

#[test]
fn statements_keep_their_parts() {
    let ast = SqlAst::parse("select NAME from DATASET where Id >= -2.5 order by name nulls first limit 7")
        .unwrap();
    assert_eq!(
        ast.projection(),
        &SqlProjection::Columns(vec!["NAME".to_string()])
    );
    assert_eq!(
        ast.predicate(),
        Some(&SqlPredicate {
            column: "Id".to_string(),
            op: FilterOp::Ge,
            value: "-2.5".to_string(),
        })
    );
    assert_eq!(ast.limit(), Some(7));
    let sort = ast.sort().unwrap();
    assert_eq!(
        (sort.column.as_str(), sort.direction, sort.nulls),
        ("name", SortDirection::Ascending, NullOrder::First)
    );
    let quoted = SqlAst::parse("SELECT * FROM dataset WHERE name = 'it''s'").unwrap();
    assert_eq!(quoted.predicate().unwrap().value, "it's");
    let like = SqlAst::parse("SELECT * FROM dataset WHERE name LIKE '%ph%'").unwrap();
    assert_eq!(like.predicate().unwrap().op, FilterOp::Contains);
    assert_eq!(like.predicate().unwrap().value, "ph");
    let plus = SqlAst::parse("SELECT * FROM dataset WHERE id = +3").unwrap();
    assert_eq!(plus.predicate().unwrap().value, "3");
    assert_eq!(
        SqlAst::parse("SELECT name, max(id) FROM dataset GROUP BY Name")
            .unwrap()
            .projection(),
        &SqlProjection::Aggregates(SqlAggregate {
            group_by: Some("Name".to_string()),
            expressions: vec![SqlAggregateExpr {
                function: AggregateFunction::Max,
                column: Some("id".to_string()),
            }],
        })
    );
}

#[test]
fn columns_are_found_by_name_and_then_without_case() {
    let source = dataset();
    let fields = &source.schema.fields;
    assert_eq!(resolve_column(fields, "Value").unwrap(), 4);
    assert_eq!(resolve_column(fields, "VALUE").unwrap(), 5);
    assert_eq!(resolve_column(fields, "NAME").unwrap(), 1);
    assert!(matches!(
        resolve_column(fields, "value"),
        Err(SqlErrorOf::AmbiguousColumn(_))
    ));
    assert!(matches!(
        resolve_column(fields, "nam"),
        Err(SqlErrorOf::UnknownColumn(_))
    ));
}

#[test]
fn plans_are_checked_step_by_step() {
    let source = dataset();
    let scan = || LogicalPlan::scan(Arc::clone(&source));
    let message = |plan: LogicalPlan| Planner::plan(&plan).unwrap_err().message(&source.schema);
    let filter = || Filter::parse("id > 1").unwrap();
    assert_eq!(
        message(scan().limit(1).limit(2)),
        "query plan contains more than one limit"
    );
    assert_eq!(
        message(scan().filter(filter()).filter(filter())),
        "query plan contains more than one filter"
    );
    assert_eq!(
        message(scan().project(vec![0]).project(vec![0])),
        "query plan contains more than one projection"
    );
    let sorted = scan().sort(0, SortDirection::Ascending, NullOrder::Last);
    assert_eq!(
        message(sorted.sort(0, SortDirection::Ascending, NullOrder::Last)),
        "query plan contains more than one sort"
    );
    let grouped = scan().aggregate(vec![AggregateExpr::count_all()]).unwrap();
    assert_eq!(
        message(grouped.aggregate(vec![AggregateExpr::count_all()]).unwrap()),
        "query plan contains more than one aggregate"
    );
    assert_eq!(
        message(scan().project(vec![9])),
        "validate query projection: column index 9 out of range"
    );
    assert_eq!(
        message(scan().sort(9, SortDirection::Ascending, NullOrder::Last)),
        "validate query sort: sort column 9 out of range"
    );
    assert_eq!(
        message(
            scan()
                .aggregate_grouped(3, vec![AggregateExpr::count_all()])
                .unwrap()
        ),
        "validate query aggregate: GROUP BY is not supported for Binary columns"
    );
    assert!(scan().aggregate(vec![]).is_err());
    assert!(matches!(
        Planner::plan(&scan().filter(Filter::parse("zz > 1").unwrap())),
        Err(PlanError::Filter(_))
    ));
    let plan = Planner::plan(
        &scan()
            .limit(4)
            .project(vec![1])
            .sort(0, SortDirection::Descending, NullOrder::First),
    )
    .unwrap();
    assert_eq!(plan.limit(), Some(4));
    assert_eq!(plan.projected_columns(), &[1]);
    assert_eq!(
        plan.sort(),
        Some(SortSpec::new(
            0,
            SortDirection::Descending,
            NullOrder::First
        ))
    );
    assert!(plan.filter().is_none());
    assert!(plan.aggregate().is_none());
}

#[test]
fn what_the_user_enters_is_made_ready() {
    let source = dataset();
    let filter = prepare_filter("  id == 2 ", &source).unwrap();
    assert_eq!(filter.kind, QueryKind::Filter);
    assert_eq!(filter.projected_columns, vec![0, 1, 2, 3, 4, 5]);
    assert!(!filter.aggregate);
    assert!(filter.sort.is_none());
    assert!(
        prepare_filter("id", &source)
            .unwrap_err()
            .message(&source.schema)
            .starts_with("Invalid filter: ")
    );
    assert_eq!(
        prepare_sql("  ", &source)
            .unwrap_err()
            .message(&source.schema),
        "Enter a SELECT query before running it"
    );
    let grouped = prepare_sql(
        "SELECT name, COUNT(*) FROM dataset GROUP BY name",
        &source,
    )
    .unwrap();
    assert!(grouped.aggregate);
    assert_eq!(grouped.projected_columns, vec![0, 1]);

    let first = prepare_sort(None, &source, 1).unwrap();
    assert_eq!(first.kind, QueryKind::Sort);
    let ascending = SortSpec::new(1, SortDirection::Ascending, NullOrder::Last);
    assert_eq!(first.sort, Some(ascending));
    let again = prepare_sort(Some((&first.plan, first.kind, first.sort)), &source, 1).unwrap();
    assert_eq!(
        again.sort,
        Some(SortSpec::new(
            1,
            SortDirection::Descending,
            NullOrder::Last
        ))
    );
    assert_eq!(
        toggled_direction(again.sort, 1),
        SortDirection::Ascending
    );
    assert_eq!(
        toggled_direction(Some(ascending), 0),
        SortDirection::Ascending
    );
}

#[test]
fn sorting_a_plan_with_a_repeated_step_names_the_step() {
    let source = dataset();
    let twice = LogicalPlan::scan(Arc::clone(&source)).limit(1).limit(2);
    let error = prepare_sort(Some((&twice, QueryKind::Sql, None)), &source, 0).unwrap_err();
    assert!(matches!(
        error,
        PrepareError::Plan(PlanError::Repeated(PlanStep::Limit))
    ));

    let sorted = LogicalPlan::scan(Arc::clone(&source))
        .sort(0, SortDirection::Ascending, NullOrder::First)
        .sort(1, SortDirection::Ascending, NullOrder::First);
    let replaced = prepare_sort(Some((&sorted, QueryKind::Sort, None)), &source, 2).unwrap();
    assert_eq!(
        replaced.sort,
        Some(SortSpec::new(
            2,
            SortDirection::Ascending,
            NullOrder::Last
        ))
    );
    assert_eq!(replaced.projected_columns, vec![0, 1, 2, 3, 4, 5]);
}
