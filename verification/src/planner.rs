//! Turning logical plans into what is executed.

use std::sync::Arc;

use crate::aggregate::{AggregateExpr, AggregateSpec};
use crate::filter::{FilterError, FilterExpr};
use crate::logical::{parts_of, share_metadata, LogicalPlan, PlanParts, PlanStep};
use crate::metadata::DatasetMetadata;
use crate::projection::{all_columns, projection_fault, Projection, ProjectionError};
use crate::sort::SortSpec;
use crate::source::{filter_fault, sort_fault, ValidationError};
use vstd::prelude::*;

verus! {

/// A plan that was checked against its dataset.
#[derive(Debug)]
pub struct PhysicalPlan {
    pub source: Arc<DatasetMetadata>,
    pub projection: Projection,
    pub filter: Option<FilterExpr>,
    pub aggregate: Option<AggregateSpec>,
    pub sort: Option<SortSpec>,
    pub limit: Option<usize>,
}

/// Why a plan cannot be executed.
#[derive(Debug)]
pub enum PlanError {
    /// A step occurs more than once.
    Repeated(PlanStep),
    Projection(ProjectionError),
    Filter(FilterError),
    Sort(ValidationError),
    Aggregate(ValidationError),
}

pub struct Planner;

struct PlanState {
    source: Arc<DatasetMetadata>,
    columns: Option<Vec<usize>>,
    filter: Option<FilterExpr>,
    aggregate: Option<AggregateSpec>,
    sort: Option<SortSpec>,
    limit: Option<usize>,
}

impl PlanState {
    spec fn parts(&self) -> PlanParts {
        PlanParts {
            source: *self.source,
            columns: match self.columns {
                Some(columns) => Some(columns@),
                None => None,
            },
            filter: match self.filter {
                Some(filter) => Some(filter@),
                None => None,
            },
            aggregate: match self.aggregate {
                Some(aggregate) => Some((aggregate.listed(), aggregate.grouping())),
                None => None,
            },
            sort: self.sort,
            limit: self.limit,
        }
    }
}

impl PhysicalPlan {
    pub fn projected_columns(&self) -> (columns: &[usize])
        ensures
            columns@ == self.projection@,
    {
        self.projection.as_slice()
    }

    pub fn filter(&self) -> (filter: Option<&FilterExpr>)
        ensures
            filter is Some <==> self.filter is Some,
            filter matches Some(expression) ==> *expression == self.filter->0,
    {
        self.filter.as_ref()
    }

    pub fn aggregate(&self) -> (aggregate: Option<&AggregateSpec>)
        ensures
            aggregate is Some <==> self.aggregate is Some,
            aggregate matches Some(spec) ==> *spec == self.aggregate->0,
    {
        self.aggregate.as_ref()
    }

    pub fn limit(&self) -> (limit: Option<usize>)
        ensures
            limit == self.limit,
    {
        self.limit
    }

    pub fn sort(&self) -> (sort: Option<SortSpec>)
        ensures
            sort == self.sort,
    {
        self.sort
    }

    /// How many columns the result has: those of the aggregate where there is
    /// one, else the projected ones.
    pub open spec fn result_columns(&self) -> nat {
        match self.aggregate {
            Some(aggregate) => aggregate.listed().len() + if aggregate.grouping() is Some {
                1nat
            } else {
                0nat
            },
            None => self.projection@.len(),
        }
    }

    /// The plan says what the parts say.
    pub open spec fn performs(&self, parts: PlanParts) -> bool {
        &&& *self.source == parts.source
        &&& self.projection@ == match parts.columns {
            Some(columns) => if columns.len() == 0 {
                all_columns(parts.source.column_count as nat)
            } else {
                columns
            },
            None => all_columns(parts.source.column_count as nat),
        }
        &&& self.filter is Some <==> parts.filter is Some
        &&& self.filter is Some ==> self.filter->0@ == parts.filter->0
        &&& self.aggregate is Some <==> parts.aggregate is Some
        &&& self.aggregate is Some ==> parts.aggregate->0 == (
            self.aggregate->0.listed(),
            self.aggregate->0.grouping(),
        )
        &&& self.sort == parts.sort
        &&& self.limit == parts.limit
    }
}

/// What is wrong with an aggregate over these columns, given its parts.
pub open spec fn listed_fault(
    expressions: Seq<AggregateExpr>,
    grouping: Option<usize>,
    fields: Seq<crate::schema::Field>,
) -> Option<ValidationError> {
    match grouping {
        Some(column) => if column >= fields.len() {
            Some(ValidationError::GroupOutOfRange(column))
        } else if !fields[column as int].data_type.comparable() {
            Some(ValidationError::GroupType(column))
        } else {
            crate::source::expressions_fault(expressions, fields)
        },
        None => crate::source::expressions_fault(expressions, fields),
    }
}

/// Whether nothing is wrong with the projection.
pub open spec fn projection_ok(parts: PlanParts) -> bool {
    parts.columns is None || projection_fault(
        parts.columns->0,
        parts.source.column_count as nat,
    ) is None
}

/// Whether nothing is wrong with the filter.
pub open spec fn filter_ok(parts: PlanParts) -> bool {
    parts.filter is None || filter_fault(parts.filter->0, parts.source.schema) is None
}

/// Whether nothing is wrong with the sort.
pub open spec fn sort_ok(parts: PlanParts) -> bool {
    parts.sort is None || sort_fault(parts.sort->0, parts.source.schema.fields@) is None
}

/// Whether nothing is wrong with the aggregate.
pub open spec fn aggregate_ok(parts: PlanParts) -> bool {
    match parts.aggregate {
        Some((expressions, grouping)) => listed_fault(
            expressions,
            grouping,
            parts.source.schema.fields@,
        ) is None,
        None => true,
    }
}

/// Whether the steps of a plan fit its dataset.
pub open spec fn fits_dataset(parts: PlanParts) -> bool {
    projection_ok(parts) && filter_ok(parts) && sort_ok(parts) && aggregate_ok(parts)
}

/// Whether `error` is what is wrong with the first of the projection, the filter,
/// the sort and the aggregate that does not fit the dataset.
pub open spec fn plan_fails(parts: PlanParts, error: PlanError) -> bool {
    match error {
        PlanError::Repeated(_) => false,
        PlanError::Projection(error) => parts.columns is Some && projection_fault(
            parts.columns->0,
            parts.source.column_count as nat,
        ) == Some(error),
        PlanError::Filter(error) => projection_ok(parts) && parts.filter is Some && filter_fault(
            parts.filter->0,
            parts.source.schema,
        ) == Some(error@),
        PlanError::Sort(error) => projection_ok(parts) && filter_ok(parts) && parts.sort is Some
            && sort_fault(parts.sort->0, parts.source.schema.fields@) == Some(error),
        PlanError::Aggregate(error) => projection_ok(parts) && filter_ok(parts) && sort_ok(parts)
            && (parts.aggregate matches Some((expressions, grouping)) && listed_fault(
            expressions,
            grouping,
            parts.source.schema.fields@,
        ) == Some(error)),
    }
}

impl Planner {
    /// Checks a plan against its dataset: each step occurs at most once, and
    /// the projection, the filter, the sort and the aggregate, in this order,
    /// fit the columns.
    pub fn plan(logical: &LogicalPlan) -> (result: Result<PhysicalPlan, PlanError>)
        ensures
            match parts_of(*logical) {
                Ok(parts) => match result {
                    Ok(physical) => fits_dataset(parts) && physical.performs(parts),
                    Err(error) => plan_fails(parts, error),
                },
                Err(step) => result == Err::<PhysicalPlan, PlanError>(PlanError::Repeated(step)),
            },
    {
        let state = match collect(logical) {
            Ok(state) => state,
            Err(step) => return Err(PlanError::Repeated(step)),
        };
        let column_count: usize = state.source.column_count;
        let projection = match state.columns {
            Some(columns) => match Projection::columns(columns, column_count) {
                Ok(projection) => projection,
                Err(error) => return Err(PlanError::Projection(error)),
            },
            None => Projection::all(column_count),
        };
        if let Some(filter) = &state.filter {
            if let Err(error) = state.source.validate_filter(filter) {
                return Err(PlanError::Filter(error));
            }
        }
        if let Some(sort) = state.sort {
            if let Err(error) = state.source.validate_sort(sort) {
                return Err(PlanError::Sort(error));
            }
        }
        if let Some(aggregate) = &state.aggregate {
            if let Err(error) = state.source.validate_aggregate(aggregate) {
                return Err(PlanError::Aggregate(error));
            }
        }
        Ok(
            PhysicalPlan {
                source: state.source,
                projection,
                filter: state.filter,
                aggregate: state.aggregate,
                sort: state.sort,
                limit: state.limit,
            },
        )
    }
}

fn collect(plan: &LogicalPlan) -> (result: Result<PlanState, PlanStep>)
    ensures
        match result {
            Ok(state) => parts_of(*plan) == Ok::<PlanParts, PlanStep>(state.parts()),
            Err(step) => parts_of(*plan) == Err::<PlanParts, PlanStep>(step),
        },
    decreases plan,
{
    match plan {
        LogicalPlan::Scan(scan) => Ok(
            PlanState {
                source: share_metadata(&scan.source),
                columns: None,
                filter: None,
                aggregate: None,
                sort: None,
                limit: None,
            },
        ),
        LogicalPlan::Projection { input, projection } => {
            let mut state = collect(input)?;
            if state.columns.is_some() {
                return Err(PlanStep::Projection);
            }
            state.columns = Some(crate::logical::copy_columns(&projection.columns));
            Ok(state)
        },
        LogicalPlan::Filter { input, filter } => {
            let mut state = collect(input)?;
            if state.filter.is_some() {
                return Err(PlanStep::Filter);
            }
            state.filter = Some(filter.expression.copy());
            Ok(state)
        },
        LogicalPlan::Aggregate { input, aggregate } => {
            let mut state = collect(input)?;
            if state.aggregate.is_some() {
                return Err(PlanStep::Aggregate);
            }
            state.aggregate = Some(aggregate.copy());
            Ok(state)
        },
        LogicalPlan::Sort { input, sort } => {
            let mut state = collect(input)?;
            if state.sort.is_some() {
                return Err(PlanStep::Sort);
            }
            state.sort = Some(sort.spec);
            Ok(state)
        },
        LogicalPlan::Limit { input, limit } => {
            let mut state = collect(input)?;
            if state.limit.is_some() {
                return Err(PlanStep::Limit);
            }
            state.limit = Some(limit.rows);
            Ok(state)
        },
    }
}

/// A plan that performs some parts reads the columns that they name, or all where they name
/// none, and filters, aggregates, sorts and limits as they do.
pub proof fn law_plan_performs_its_parts(plan: &PhysicalPlan, parts: PlanParts, column: usize)
    requires
        plan.performs(parts),
        parts.source.column_count <= usize::MAX,
    ensures
        plan.limit == parts.limit,
        plan.sort == parts.sort,
        plan.filter is Some <==> parts.filter is Some,
        plan.filter is Some ==> plan.filter->0@ == parts.filter->0,
        plan.aggregate is Some <==> parts.aggregate is Some,
        plan.aggregate is Some ==> plan.aggregate->0.listed() == (parts.aggregate->0).0
            && plan.aggregate->0.grouping() == (parts.aggregate->0).1,
        parts.columns matches Some(columns) ==> columns.len() > 0 ==> plan.projection@ == columns,
        parts.columns is None ==> (plan.projection@.contains(column) <==> column
            < parts.source.column_count),
{
    if parts.columns is None {
        let all = plan.projection@;
        if column < parts.source.column_count {
            assert(all[column as int] == column);
        }
    }
}

/// A plan accepts the aggregates that a read accepts.
pub proof fn law_plans_accept_what_reads_accept(
    aggregate: AggregateSpec,
    fields: Seq<crate::schema::Field>,
)
    ensures
        listed_fault(aggregate.listed(), aggregate.grouping(), fields)
            == crate::source::aggregate_fault(aggregate, fields),
{
}

} // verus!
