//! Getting a filter, a query or a sort that the user entered ready to run.

use std::sync::Arc;

use crate::filter::{parsed_filter, FilterError};
use crate::logical::{
    copy_columns, parts_of, share_metadata, Filter, LogicalPlan, PlanParts, PlanStep,
};
use crate::messages::{sql_message, sql_message_text};
use crate::metadata::DatasetMetadata;
use crate::planner::{fits_dataset, plan_fails, PhysicalPlan, PlanError, Planner};
use crate::projection::{all_columns, Projection};
use crate::results::QueryKind;
use crate::schema::{Field, Schema};
use crate::sort::{NullOrder, SortDirection, SortSpec};
use crate::sql::{
    error_model, plan_meaning, statements_meaning, SqlAst, SqlError, SqlErrorModel, SqlErrorOf,
    SqlModel,
};
use crate::sql_reader::sql_models;
use crate::text::{cat, cat3, chars_of, decimal, decimal_text, trim, trimmed};
use vstd::prelude::*;

verus! {

/// A query that can be started, and how its result is shown.
#[derive(Debug)]
pub struct PreparedQuery {
    pub kind: QueryKind,
    pub plan: LogicalPlan,
    pub sort: Option<SortSpec>,
    /// Whether the columns of the result are aggregates.
    pub aggregate: bool,
    /// The columns of the result: those of the dataset that are read, or the
    /// numbers of the aggregates.
    pub projected_columns: Vec<usize>,
}

/// Why a query cannot be started.
#[derive(Debug)]
pub enum PrepareError {
    Filter(FilterError),
    EmptySql,
    Sql(SqlError),
    NoSuchColumn(usize),
    Plan(PlanError),
}

impl PrepareError {
    /// The message that the user sees, over these columns.
    pub open spec fn message_text(self, fields: Seq<Field>) -> Seq<char> {
        match self {
            PrepareError::Filter(error) => "Invalid filter: "@ + error.message_text(),
            PrepareError::EmptySql => "Enter a SELECT query before running it"@,
            PrepareError::Sql(error) => "SQL error: "@ + sql_message_text(error, fields),
            PrepareError::NoSuchColumn(column) => "Sort column "@ + decimal(column as nat)
                + " is out of range"@,
            PrepareError::Plan(error) => error.message_text(fields),
        }
    }

    /// The message that the user sees, over the columns of a dataset.
    pub fn message(&self, schema: &Schema) -> (text: String)
        ensures
            text@ == self.message_text(schema.fields@),
    {
        match self {
            PrepareError::Filter(error) => cat("Invalid filter: ", error.message().as_str()),
            PrepareError::EmptySql => "Enter a SELECT query before running it".to_owned(),
            PrepareError::Sql(error) => cat("SQL error: ", sql_message(error, schema).as_str()),
            PrepareError::NoSuchColumn(column) => cat3(
                "Sort column ",
                decimal_text(*column as u64).as_str(),
                " is out of range",
            ),
            PrepareError::Plan(error) => error.message(schema),
        }
    }
}

/// The steps of a plan that reads all columns.
pub open spec fn whole_dataset(source: DatasetMetadata) -> PlanParts {
    PlanParts {
        source,
        columns: Some(all_columns(source.column_count as nat)),
        filter: None,
        aggregate: None,
        sort: None,
        limit: None,
    }
}

/// What a SQL text means.
pub open spec fn sql_meaning(sql: Seq<char>) -> Result<SqlModel, SqlErrorModel> {
    match sql_models(sql) {
        Err(message) => Err(SqlErrorOf::Parse(message)),
        Ok(statements) => statements_meaning(statements),
    }
}

/// The plan that a SQL text means over a dataset.
pub open spec fn sql_plan(sql: Seq<char>, source: DatasetMetadata) -> Result<
    PlanParts,
    SqlErrorModel,
> {
    match sql_meaning(sql) {
        Err(error) => Err(error),
        Ok(query) => plan_meaning(query, source),
    }
}

/// The columns that the result of a plan has: all where none are chosen, and the
/// numbers of the aggregates where there are some.
pub open spec fn result_columns(parts: PlanParts) -> Seq<usize> {
    match parts.aggregate {
        Some((expressions, grouping)) => all_columns(
            expressions.len() + if grouping is Some {
                1nat
            } else {
                0nat
            },
        ),
        None => match parts.columns {
            Some(columns) => if columns.len() == 0 {
                all_columns(parts.source.column_count as nat)
            } else {
                columns
            },
            None => all_columns(parts.source.column_count as nat),
        },
    }
}

/// The direction of the next sort by a column: it is reversed where the rows are
/// sorted by that column in ascending order.
pub open spec fn next_direction(previous: Option<SortSpec>, column: usize) -> SortDirection {
    match previous {
        Some(sort) => if sort.column == column && sort.direction == SortDirection::Ascending {
            SortDirection::Descending
        } else {
            SortDirection::Ascending
        },
        None => SortDirection::Ascending,
    }
}

/// The direction of the next sort by a column.
pub fn toggled_direction(previous: Option<SortSpec>, column: usize) -> (direction: SortDirection)
    ensures
        direction == next_direction(previous, column),
{
    match previous {
        Some(sort) => if sort.column == column && sort.direction == SortDirection::Ascending {
            SortDirection::Descending
        } else {
            SortDirection::Ascending
        },
        None => SortDirection::Ascending,
    }
}

/// What becomes of a filter over a dataset.
pub open spec fn prepares_filter(
    input: Seq<char>,
    source: DatasetMetadata,
    result: Result<PreparedQuery, PrepareError>,
) -> bool {
    match parsed_filter(trimmed(input)) {
        Err(error) => result matches Err(PrepareError::Filter(found)) && found@ == error,
        Ok(filter) => {
            let parts = PlanParts { filter: Some(filter), ..whole_dataset(source) };
            match result {
                Ok(query) => fits_dataset(parts) && parts_of(query.plan) == Ok::<
                    PlanParts,
                    PlanStep,
                >(parts) && query.kind == QueryKind::Filter && query.sort is None
                    && !query.aggregate && query.projected_columns@ == all_columns(
                    source.column_count as nat,
                ),
                Err(error) => error matches PrepareError::Plan(fault) && plan_fails(parts, fault),
            }
        },
    }
}

/// The plan of all rows that a filter selects. White space around the filter is of
/// no matter.
pub fn prepare_filter(input: &str, source: &Arc<DatasetMetadata>) -> (result: Result<
    PreparedQuery,
    PrepareError,
>)
    ensures
        prepares_filter(input@, **source, result),
{
    let expression = trim(input);
    let filter = match Filter::parse(expression.as_str()) {
        Ok(filter) => filter,
        Err(error) => return Err(PrepareError::Filter(error)),
    };
    let columns = Projection::all(source.column_count).to_vec();
    let projected_columns = copy_columns(&columns);
    let scan = LogicalPlan::scan(share_metadata(source));
    assert(parts_of(scan) matches Ok(parts));
    let filtered = scan.filter(filter);
    assert(parts_of(filtered) matches Ok(parts));
    let plan = filtered.project(columns);
    match Planner::plan(&plan) {
        Ok(physical) => Ok(
            PreparedQuery {
                kind: QueryKind::Filter,
                plan,
                sort: physical.sort(),
                aggregate: false,
                projected_columns,
            },
        ),
        Err(error) => Err(PrepareError::Plan(error)),
    }
}

/// What the plan of a SQL text over a dataset is.
pub open spec fn plans_sql(
    sql: Seq<char>,
    source: DatasetMetadata,
    result: Result<LogicalPlan, SqlError>,
) -> bool {
    match sql_plan(sql, source) {
        Err(error) => result matches Err(found) && error_model(found) == error,
        Ok(parts) => match result {
            Ok(plan) => fits_dataset(parts) && parts_of(plan) == Ok::<PlanParts, PlanStep>(parts),
            Err(error) => error matches SqlErrorOf::Plan(fault) && plan_fails(parts, fault),
        },
    }
}

/// The plan of a SQL text.
pub fn plan_sql(sql: &str, source: &Arc<DatasetMetadata>) -> (result: Result<
    LogicalPlan,
    SqlError,
>)
    ensures
        plans_sql(sql@, **source, result),
{
    match SqlAst::parse(sql) {
        Ok(ast) => ast.to_logical_plan(share_metadata(source)),
        Err(error) => Err(error),
    }
}

/// What becomes of a SQL query over a dataset.
pub open spec fn prepares_sql(
    input: Seq<char>,
    source: DatasetMetadata,
    result: Result<PreparedQuery, PrepareError>,
) -> bool {
    if trimmed(input).len() == 0 {
        result matches Err(PrepareError::EmptySql)
    } else {
        match sql_plan(trimmed(input), source) {
            Err(error) => result matches Err(PrepareError::Sql(found)) && error_model(found)
                == error,
            Ok(parts) => match result {
                Ok(query) => fits_dataset(parts) && parts_of(query.plan) == Ok::<
                    PlanParts,
                    PlanStep,
                >(parts) && query.kind == QueryKind::Sql && query.sort == parts.sort
                    && query.aggregate == (parts.aggregate is Some)
                    && query.projected_columns@ == result_columns(parts),
                Err(error) => error matches PrepareError::Sql(SqlErrorOf::Plan(fault))
                    && plan_fails(parts, fault),
            },
        }
    }
}

/// The plan of a SQL query. White space around it is of no matter.
pub fn prepare_sql(input: &str, source: &Arc<DatasetMetadata>) -> (result: Result<
    PreparedQuery,
    PrepareError,
>)
    ensures
        prepares_sql(input@, **source, result),
{
    let sql = trim(input);
    if chars_of(sql.as_str()).len() == 0 {
        return Err(PrepareError::EmptySql);
    }
    let plan = match plan_sql(sql.as_str(), source) {
        Ok(plan) => plan,
        Err(error) => return Err(PrepareError::Sql(error)),
    };
    match Planner::plan(&plan) {
        Ok(physical) => {
            let projected_columns = physical.shown_columns();
            Ok(
                PreparedQuery {
                    kind: QueryKind::Sql,
                    plan,
                    sort: physical.sort(),
                    aggregate: physical.aggregate().is_some(),
                    projected_columns,
                },
            )
        },
        Err(error) => Err(PrepareError::Plan(error)),
    }
}

impl PhysicalPlan {
    /// The numbers of the columns of the result.
    pub open spec fn shown(&self) -> Seq<usize> {
        match self.aggregate {
            Some(_) => all_columns(self.result_columns()),
            None => self.projection@,
        }
    }

    /// The numbers of the columns of the result: those of the dataset that are
    /// read, or those of the aggregates.
    pub fn shown_columns(&self) -> (columns: Vec<usize>)
        ensures
            columns@ == self.shown(),
    {
        match self.aggregate() {
            Some(aggregate) => {
                let expressions: usize = aggregate.expressions().len();
                let mut columns = Projection::all(expressions).to_vec();
                if aggregate.group_by().is_some() {
                    columns.push(expressions);
                    assert(columns@ =~= all_columns(self.result_columns()));
                }
                columns
            },
            None => self.projection.to_vec(),
        }
    }
}

/// What becomes of a sort by a column of what is shown.
pub open spec fn prepares_sort(
    current: Option<(LogicalPlan, QueryKind, Option<SortSpec>)>,
    source: DatasetMetadata,
    column: usize,
    result: Result<PreparedQuery, PrepareError>,
) -> bool {
    if column >= source.schema.fields@.len() {
        result == Err::<PreparedQuery, PrepareError>(PrepareError::NoSuchColumn(column))
    } else {
        let (kind, previous, before) = match current {
            Some((plan, kind, sort)) => (kind, sort, parts_of(plan.unsorted())),
            None => (QueryKind::Sort, None, Ok::<PlanParts, PlanStep>(whole_dataset(source))),
        };
        let sort = SortSpec {
            column,
            direction: next_direction(previous, column),
            nulls: NullOrder::Last,
        };
        match before {
            Err(step) => result == Err::<PreparedQuery, PrepareError>(
                PrepareError::Plan(PlanError::Repeated(step)),
            ),
            Ok(before) => {
                let parts = PlanParts { sort: Some(sort), ..before };
                match result {
                    Ok(query) => fits_dataset(parts) && parts_of(query.plan) == Ok::<
                        PlanParts,
                        PlanStep,
                    >(parts) && query.kind == kind && query.sort == Some(sort)
                        && !query.aggregate && query.projected_columns@ == result_columns(
                        PlanParts { aggregate: None, ..parts },
                    ),
                    Err(error) => error matches PrepareError::Plan(fault) && plan_fails(
                        parts,
                        fault,
                    ),
                }
            },
        }
    }
}

/// The plan of the rows that are shown, sorted by a column: in ascending order, or
/// in descending order where they are sorted by it in ascending order already.
/// `current` is the plan, the kind and the order of what is shown, where that is
/// not the whole dataset.
pub fn prepare_sort(
    current: Option<(&LogicalPlan, QueryKind, Option<SortSpec>)>,
    source: &Arc<DatasetMetadata>,
    column: usize,
) -> (result: Result<PreparedQuery, PrepareError>)
    ensures
        prepares_sort(
            match current {
                Some((plan, kind, sort)) => Some((*plan, kind, sort)),
                None => None,
            },
            **source,
            column,
            result,
        ),
{
    if column >= source.schema.fields.len() {
        return Err(PrepareError::NoSuchColumn(column));
    }
    let (base, kind, previous): (LogicalPlan, QueryKind, Option<SortSpec>) = match current {
        Some((plan, kind, sort)) => (plan.copy(), kind, sort),
        None => {
            let columns = Projection::all(source.column_count).to_vec();
            let scan = LogicalPlan::scan(share_metadata(source));
            assert(parts_of(scan) is Ok);
            let whole = scan.project(columns);
            assert(parts_of(whole) == Ok::<PlanParts, PlanStep>(whole_dataset(**source)));
            (whole, QueryKind::Sort, None)
        },
    };
    let direction = toggled_direction(previous, column);
    let plan = base.replace_sort(column, direction, NullOrder::Last);
    match Planner::plan(&plan) {
        Ok(physical) => Ok(
            PreparedQuery {
                kind,
                plan,
                sort: physical.sort(),
                aggregate: false,
                projected_columns: physical.projection.to_vec(),
            },
        ),
        Err(error) => Err(PrepareError::Plan(error)),
    }
}

/// Clicking a column sorts it upwards, and clicking the column that is sorted upwards turns it
/// round.
pub proof fn law_clicking_again_turns_the_order_round(previous: Option<SortSpec>, column: usize)
    ensures
        next_direction(previous, column) is Descending <==> (previous matches Some(sort)
            && sort.column == column && sort.direction is Ascending),
{
}

} // verus!
