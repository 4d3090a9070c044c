//! Logical query plans.

use std::sync::Arc;

use crate::aggregate::{AggregateExpr, AggregateSpec, EmptyAggregate};
use crate::filter::{parsed_filter, FilterError, FilterErrorModel, FilterExpr, FilterModel};
use crate::metadata::DatasetMetadata;
use crate::sort::{NullOrder, SortDirection, SortSpec};
use vstd::prelude::*;

verus! {

/// Reads a dataset.
#[derive(Debug)]
pub struct Scan {
    pub source: Arc<DatasetMetadata>,
}

/// Keeps some columns.
#[derive(Debug, PartialEq, Eq)]
pub struct Projection {
    pub columns: Vec<usize>,
}

/// Keeps the rows that pass.
#[derive(Debug, PartialEq, Eq)]
pub struct Filter {
    pub expression: FilterExpr,
}

/// Orders the rows.
#[derive(Clone, Copy, Debug, PartialEq, Eq, Structural)]
pub struct Sort {
    pub spec: SortSpec,
}

/// Keeps at most so many rows.
#[derive(Clone, Copy, Debug, PartialEq, Eq, Structural)]
pub struct Limit {
    pub rows: usize,
}

/// What a query does, from the scan outwards.
#[derive(Debug)]
pub enum LogicalPlan {
    Scan(Scan),
    Projection { input: Box<LogicalPlan>, projection: Projection },
    Filter { input: Box<LogicalPlan>, filter: Filter },
    Aggregate { input: Box<LogicalPlan>, aggregate: AggregateSpec },
    Sort { input: Box<LogicalPlan>, sort: Sort },
    Limit { input: Box<LogicalPlan>, limit: Limit },
}

/// The steps that a plan may have once.
#[derive(Clone, Copy, Debug, PartialEq, Eq, Structural)]
pub enum PlanStep {
    Projection,
    Filter,
    Aggregate,
    Sort,
    Limit,
}

/// The steps of a plan, each at most once.
pub struct PlanParts {
    pub source: DatasetMetadata,
    pub columns: Option<Seq<usize>>,
    pub filter: Option<FilterModel>,
    pub aggregate: Option<(Seq<AggregateExpr>, Option<usize>)>,
    pub sort: Option<SortSpec>,
    pub limit: Option<usize>,
}

/// The steps of a plan, or the first one that occurs twice.
pub open spec fn parts_of(plan: LogicalPlan) -> Result<PlanParts, PlanStep>
    decreases plan,
{
    match plan {
        LogicalPlan::Scan(scan) => Ok(
            PlanParts {
                source: *scan.source,
                columns: None,
                filter: None,
                aggregate: None,
                sort: None,
                limit: None,
            },
        ),
        LogicalPlan::Projection { input, projection } => match parts_of(*input) {
            Err(step) => Err(step),
            Ok(parts) => if parts.columns is Some {
                Err(PlanStep::Projection)
            } else {
                Ok(PlanParts { columns: Some(projection.columns@), ..parts })
            },
        },
        LogicalPlan::Filter { input, filter } => match parts_of(*input) {
            Err(step) => Err(step),
            Ok(parts) => if parts.filter is Some {
                Err(PlanStep::Filter)
            } else {
                Ok(PlanParts { filter: Some(filter.expression@), ..parts })
            },
        },
        LogicalPlan::Aggregate { input, aggregate } => match parts_of(*input) {
            Err(step) => Err(step),
            Ok(parts) => if parts.aggregate is Some {
                Err(PlanStep::Aggregate)
            } else {
                Ok(
                    PlanParts {
                        aggregate: Some((aggregate.listed(), aggregate.grouping())),
                        ..parts
                    },
                )
            },
        },
        LogicalPlan::Sort { input, sort } => match parts_of(*input) {
            Err(step) => Err(step),
            Ok(parts) => if parts.sort is Some {
                Err(PlanStep::Sort)
            } else {
                Ok(PlanParts { sort: Some(sort.spec), ..parts })
            },
        },
        LogicalPlan::Limit { input, limit } => match parts_of(*input) {
            Err(step) => Err(step),
            Ok(parts) => if parts.limit is Some {
                Err(PlanStep::Limit)
            } else {
                Ok(PlanParts { limit: Some(limit.rows), ..parts })
            },
        },
    }
}

/// `Arc::clone`: another handle on the same value.
#[verifier::external_body]
pub(crate) fn share_metadata(source: &Arc<DatasetMetadata>) -> (shared: Arc<DatasetMetadata>)
    ensures
        shared == *source,
{
    Arc::clone(source)
}

pub(crate) fn copy_columns(columns: &Vec<usize>) -> (copy: Vec<usize>)
    ensures
        copy@ == columns@,
{
    let mut copy: Vec<usize> = Vec::new();
    let mut i: usize = 0;
    while i < columns.len()
        invariant
            i <= columns@.len(),
            copy@ == columns@.take(i as int),
        decreases columns@.len() - i,
    {
        copy.push(columns[i]);
        i = i + 1;
        assert(copy@ =~= columns@.take(i as int));
    }
    assert(copy@ =~= columns@);
    copy
}

impl Scan {
    pub fn new(source: Arc<DatasetMetadata>) -> (scan: Self)
        ensures
            scan.source == source,
    {
        Scan { source }
    }
}

impl Projection {
    pub fn new(columns: Vec<usize>) -> (projection: Self)
        ensures
            projection.columns == columns,
    {
        Projection { columns }
    }

    pub fn columns(&self) -> (columns: &[usize])
        ensures
            columns@ == self.columns@,
    {
        self.columns.as_slice()
    }
}

impl Filter {
    pub fn new(expression: FilterExpr) -> (filter: Self)
        ensures
            filter.expression == expression,
    {
        Filter { expression }
    }

    pub fn parse(expression: &str) -> (result: Result<Self, FilterError>)
        ensures
            match result {
                Ok(filter) => parsed_filter(expression@) == Ok::<FilterModel, FilterErrorModel>(
                    filter.expression@,
                ),
                Err(error) => parsed_filter(expression@) == Err::<FilterModel, FilterErrorModel>(
                    error@,
                ),
            },
    {
        match FilterExpr::parse(expression) {
            Ok(expression) => Ok(Filter { expression }),
            Err(error) => Err(error),
        }
    }
}

impl Limit {
    pub fn new(rows: usize) -> (limit: Self)
        ensures
            limit.rows == rows,
    {
        Limit { rows }
    }

    pub fn rows(&self) -> (rows: usize)
        ensures
            rows == self.rows,
    {
        self.rows
    }
}

proof fn lemma_unsorted(plan: LogicalPlan)
    ensures
        parts_of(plan.unsorted()) matches Ok(parts) ==> parts.sort is None,
        parts_of(plan) matches Ok(parts) ==> parts_of(plan.unsorted()) == Ok::<PlanParts, PlanStep>(
            PlanParts { sort: None, ..parts },
        ),
    decreases plan,
{
    match plan {
        LogicalPlan::Scan(_) => {},
        LogicalPlan::Projection { input, .. } => lemma_unsorted(*input),
        LogicalPlan::Filter { input, .. } => lemma_unsorted(*input),
        LogicalPlan::Aggregate { input, .. } => lemma_unsorted(*input),
        LogicalPlan::Sort { input, .. } => lemma_unsorted(*input),
        LogicalPlan::Limit { input, .. } => lemma_unsorted(*input),
    }
}

impl LogicalPlan {
    pub fn scan(source: Arc<DatasetMetadata>) -> (plan: Self)
        ensures
            plan == LogicalPlan::Scan(Scan { source }),
    {
        LogicalPlan::Scan(Scan::new(source))
    }

    pub fn project(self, columns: Vec<usize>) -> (plan: Self)
        ensures
            plan == (LogicalPlan::Projection {
                input: Box::new(self),
                projection: Projection { columns },
            }),
    {
        LogicalPlan::Projection { input: Box::new(self), projection: Projection::new(columns) }
    }

    pub fn filter(self, filter: Filter) -> (plan: Self)
        ensures
            plan == (LogicalPlan::Filter { input: Box::new(self), filter }),
    {
        LogicalPlan::Filter { input: Box::new(self), filter }
    }

    pub fn limit(self, rows: usize) -> (plan: Self)
        ensures
            plan == (LogicalPlan::Limit { input: Box::new(self), limit: Limit { rows } }),
    {
        LogicalPlan::Limit { input: Box::new(self), limit: Limit::new(rows) }
    }

    /// Computes aggregates over all rows.
    pub fn aggregate(self, expressions: Vec<AggregateExpr>) -> (result: Result<
        Self,
        EmptyAggregate,
    >)
        ensures
            match result {
                Ok(plan) => expressions@.len() > 0 && (plan matches LogicalPlan::Aggregate {
                    input,
                    aggregate,
                } && *input == self && aggregate.listed() == expressions@ && aggregate.grouping() is None),
                Err(_) => expressions@.len() == 0,
            },
    {
        match AggregateSpec::new(expressions) {
            Ok(aggregate) => Ok(LogicalPlan::Aggregate { input: Box::new(self), aggregate }),
            Err(error) => Err(error),
        }
    }

    /// Computes aggregates over the rows of each value of a column.
    pub fn aggregate_grouped(self, group_by: usize, expressions: Vec<AggregateExpr>) -> (result:
        Result<Self, EmptyAggregate>)
        ensures
            match result {
                Ok(plan) => expressions@.len() > 0 && (plan matches LogicalPlan::Aggregate {
                    input,
                    aggregate,
                } && *input == self && aggregate.listed() == expressions@ && aggregate.grouping()
                    == Some(group_by)),
                Err(_) => expressions@.len() == 0,
            },
    {
        match AggregateSpec::grouped(group_by, expressions) {
            Ok(aggregate) => Ok(LogicalPlan::Aggregate { input: Box::new(self), aggregate }),
            Err(error) => Err(error),
        }
    }

    /// Orders the rows by one column.
    pub fn sort(self, column: usize, direction: SortDirection, nulls: NullOrder) -> (plan: Self)
        ensures
            plan == (LogicalPlan::Sort {
                input: Box::new(self),
                sort: Sort { spec: SortSpec { column, direction, nulls } },
            }),
    {
        LogicalPlan::Sort {
            input: Box::new(self),
            sort: Sort { spec: SortSpec::new(column, direction, nulls) },
        }
    }

    /// The plan without its sorts.
    pub open spec fn unsorted(self) -> Self
        decreases self,
    {
        match self {
            LogicalPlan::Scan(scan) => LogicalPlan::Scan(scan),
            LogicalPlan::Projection { input, projection } => LogicalPlan::Projection {
                input: Box::new((*input).unsorted()),
                projection,
            },
            LogicalPlan::Filter { input, filter } => LogicalPlan::Filter {
                input: Box::new((*input).unsorted()),
                filter,
            },
            LogicalPlan::Aggregate { input, aggregate } => LogicalPlan::Aggregate {
                input: Box::new((*input).unsorted()),
                aggregate,
            },
            LogicalPlan::Sort { input, .. } => (*input).unsorted(),
            LogicalPlan::Limit { input, limit } => LogicalPlan::Limit {
                input: Box::new((*input).unsorted()),
                limit,
            },
        }
    }

    /// The plan without its sorts.
    fn without_sort(self) -> (plan: Self)
        ensures
            plan == self.unsorted(),
        decreases self,
    {
        match self {
            LogicalPlan::Scan(scan) => LogicalPlan::Scan(scan),
            LogicalPlan::Projection { input, projection } => LogicalPlan::Projection {
                input: Box::new((*input).without_sort()),
                projection,
            },
            LogicalPlan::Filter { input, filter } => LogicalPlan::Filter {
                input: Box::new((*input).without_sort()),
                filter,
            },
            LogicalPlan::Aggregate { input, aggregate } => LogicalPlan::Aggregate {
                input: Box::new((*input).without_sort()),
                aggregate,
            },
            LogicalPlan::Sort { input, .. } => (*input).without_sort(),
            LogicalPlan::Limit { input, limit } => LogicalPlan::Limit {
                input: Box::new((*input).without_sort()),
                limit,
            },
        }
    }

    /// Orders the rows by one column instead of how they were ordered before.
    pub fn replace_sort(self, column: usize, direction: SortDirection, nulls: NullOrder) -> (plan:
        Self)
        ensures
            plan == (LogicalPlan::Sort {
                input: Box::new(self.unsorted()),
                sort: Sort { spec: SortSpec { column, direction, nulls } },
            }),
            parts_of(plan) == match parts_of(self.unsorted()) {
                Ok(parts) => Ok::<PlanParts, PlanStep>(
                    PlanParts { sort: Some(SortSpec { column, direction, nulls }), ..parts },
                ),
                Err(step) => Err(step),
            },
            parts_of(self) matches Ok(parts) ==> parts_of(plan) == Ok::<PlanParts, PlanStep>(
                PlanParts { sort: Some(SortSpec { column, direction, nulls }), ..parts },
            ),
    {
        proof {
            lemma_unsorted(self);
        }
        self.without_sort().sort(column, direction, nulls)
    }

    /// A copy of this plan over the same dataset.
    pub fn copy(&self) -> (copy: Self)
        ensures
            parts_of(copy) == parts_of(*self),
            parts_of(copy.unsorted()) == parts_of(self.unsorted()),
        decreases self,
    {
        match self {
            LogicalPlan::Scan(scan) => LogicalPlan::Scan(
                Scan { source: share_metadata(&scan.source) },
            ),
            LogicalPlan::Projection { input, projection } => LogicalPlan::Projection {
                input: Box::new(input.copy()),
                projection: Projection { columns: copy_columns(&projection.columns) },
            },
            LogicalPlan::Filter { input, filter } => LogicalPlan::Filter {
                input: Box::new(input.copy()),
                filter: Filter { expression: filter.expression.copy() },
            },
            LogicalPlan::Aggregate { input, aggregate } => LogicalPlan::Aggregate {
                input: Box::new(input.copy()),
                aggregate: aggregate.copy(),
            },
            LogicalPlan::Sort { input, sort } => LogicalPlan::Sort {
                input: Box::new(input.copy()),
                sort: *sort,
            },
            LogicalPlan::Limit { input, limit } => LogicalPlan::Limit {
                input: Box::new(input.copy()),
                limit: *limit,
            },
        }
    }
}

/// Each step of a plan does its own part and changes no other; a step that a plan has
/// already is refused, and a plan that is refused stays so.
pub proof fn law_each_step_does_its_part(
    input: Box<LogicalPlan>,
    projection: Projection,
    filter: Filter,
    aggregate: AggregateSpec,
    sort: Sort,
    limit: Limit,
)
    ensures
        match parts_of(*input) {
            Ok(parts) => {
                let projected = parts_of(LogicalPlan::Projection { input, projection });
                let filtered = parts_of(LogicalPlan::Filter { input, filter });
                let aggregated = parts_of(LogicalPlan::Aggregate { input, aggregate });
                let sorted = parts_of(LogicalPlan::Sort { input, sort });
                let limited = parts_of(LogicalPlan::Limit { input, limit });
                &&& projected is Err <==> parts.columns is Some
                &&& projected matches Ok(after) ==> after.columns == Some(projection.columns@)
                    && after.source == parts.source && after.filter == parts.filter
                    && after.aggregate == parts.aggregate && after.sort == parts.sort
                    && after.limit == parts.limit
                &&& filtered is Err <==> parts.filter is Some
                &&& filtered matches Ok(after) ==> after.filter == Some(filter.expression@)
                    && after.source == parts.source && after.columns == parts.columns
                    && after.aggregate == parts.aggregate && after.sort == parts.sort
                    && after.limit == parts.limit
                &&& aggregated is Err <==> parts.aggregate is Some
                &&& aggregated matches Ok(after) ==> after.aggregate == Some(
                    (aggregate.listed(), aggregate.grouping()),
                ) && after.source == parts.source && after.columns == parts.columns && after.filter
                    == parts.filter && after.sort == parts.sort && after.limit == parts.limit
                &&& sorted is Err <==> parts.sort is Some
                &&& sorted matches Ok(after) ==> after.sort == Some(sort.spec) && after.source
                    == parts.source && after.columns == parts.columns && after.filter
                    == parts.filter && after.aggregate == parts.aggregate && after.limit
                    == parts.limit
                &&& limited is Err <==> parts.limit is Some
                &&& limited matches Ok(after) ==> after.limit == Some(limit.rows) && after.source
                    == parts.source && after.columns == parts.columns && after.filter
                    == parts.filter && after.aggregate == parts.aggregate && after.sort
                    == parts.sort
            },
            Err(step) => {
                &&& parts_of(LogicalPlan::Projection { input, projection }) == Err::<
                    PlanParts,
                    PlanStep,
                >(step)
                &&& parts_of(LogicalPlan::Filter { input, filter }) == Err::<PlanParts, PlanStep>(
                    step,
                )
                &&& parts_of(LogicalPlan::Aggregate { input, aggregate }) == Err::<
                    PlanParts,
                    PlanStep,
                >(step)
                &&& parts_of(LogicalPlan::Sort { input, sort }) == Err::<PlanParts, PlanStep>(step)
                &&& parts_of(LogicalPlan::Limit { input, limit }) == Err::<PlanParts, PlanStep>(
                    step,
                )
            },
        },
{
    reveal_with_fuel(parts_of, 2);
}

/// A plan without its sorts does everything else that it did.
pub proof fn law_unsorted_plan_does_the_rest(plan: LogicalPlan)
    ensures
        parts_of(plan) matches Ok(parts) ==> parts_of(plan.unsorted()) == Ok::<PlanParts, PlanStep>(
            PlanParts { sort: None, ..parts },
        ),
    decreases plan,
{
    match plan {
        LogicalPlan::Scan(_) => {},
        LogicalPlan::Projection { input, .. } => law_unsorted_plan_does_the_rest(*input),
        LogicalPlan::Filter { input, .. } => law_unsorted_plan_does_the_rest(*input),
        LogicalPlan::Aggregate { input, .. } => law_unsorted_plan_does_the_rest(*input),
        LogicalPlan::Sort { input, .. } => law_unsorted_plan_does_the_rest(*input),
        LogicalPlan::Limit { input, .. } => law_unsorted_plan_does_the_rest(*input),
    }
}

} // verus!
