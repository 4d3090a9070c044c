//! Aggregate expressions and the bounds on grouped aggregation.

use crate::sort::BudgetError;
use vstd::prelude::*;

verus! {

/// One supported aggregate operation.
#[derive(Clone, Copy, Debug, PartialEq, Eq, Structural)]
pub enum AggregateFunction {
    Count,
    Sum,
    Avg,
    Min,
    Max,
}

/// One aggregate expression over an optional source column.
#[derive(Clone, Copy, Debug, PartialEq, Eq, Structural)]
pub struct AggregateExpr {
    function: AggregateFunction,
    column: Option<usize>,
}

impl AggregateExpr {
    /// The operation.
    pub closed spec fn operation(self) -> AggregateFunction {
        self.function
    }

    /// The column that it reads, if any.
    pub closed spec fn input(self) -> Option<usize> {
        self.column
    }

    /// The expression with this operation and this column.
    pub closed spec fn of(function: AggregateFunction, column: Option<usize>) -> Self {
        AggregateExpr { function, column }
    }

    /// An expression made of an operation and a column has them.
    pub proof fn law_expression_has_its_parts(function: AggregateFunction, column: Option<usize>)
        ensures
            Self::of(function, column).operation() == function,
            Self::of(function, column).input() == column,
    {
    }

    pub fn count_all() -> (expression: Self)
        ensures
            expression == Self::of(AggregateFunction::Count, None),
            expression.operation() == AggregateFunction::Count,
            expression.input() is None,
    {
        AggregateExpr { function: AggregateFunction::Count, column: None }
    }

    pub fn count(column: usize) -> (expression: Self)
        ensures
            expression == Self::of(AggregateFunction::Count, Some(column)),
            expression.operation() == AggregateFunction::Count,
            expression.input() == Some(column),
    {
        AggregateExpr { function: AggregateFunction::Count, column: Some(column) }
    }

    pub fn sum(column: usize) -> (expression: Self)
        ensures
            expression == Self::of(AggregateFunction::Sum, Some(column)),
            expression.operation() == AggregateFunction::Sum,
            expression.input() == Some(column),
    {
        AggregateExpr { function: AggregateFunction::Sum, column: Some(column) }
    }

    pub fn avg(column: usize) -> (expression: Self)
        ensures
            expression == Self::of(AggregateFunction::Avg, Some(column)),
            expression.operation() == AggregateFunction::Avg,
            expression.input() == Some(column),
    {
        AggregateExpr { function: AggregateFunction::Avg, column: Some(column) }
    }

    pub fn min(column: usize) -> (expression: Self)
        ensures
            expression == Self::of(AggregateFunction::Min, Some(column)),
            expression.operation() == AggregateFunction::Min,
            expression.input() == Some(column),
    {
        AggregateExpr { function: AggregateFunction::Min, column: Some(column) }
    }

    pub fn max(column: usize) -> (expression: Self)
        ensures
            expression == Self::of(AggregateFunction::Max, Some(column)),
            expression.operation() == AggregateFunction::Max,
            expression.input() == Some(column),
    {
        AggregateExpr { function: AggregateFunction::Max, column: Some(column) }
    }

    pub fn function(self) -> (function: AggregateFunction)
        ensures
            function == self.operation(),
    {
        self.function
    }

    pub fn column(self) -> (column: Option<usize>)
        ensures
            column == self.input(),
    {
        self.column
    }
}

/// An aggregate without any expression.
#[derive(Clone, Copy, Debug, PartialEq, Eq, Structural)]
pub struct EmptyAggregate;

/// Aggregates and an optional single grouping column.
#[derive(Debug, PartialEq, Eq)]
pub struct AggregateSpec {
    expressions: Vec<AggregateExpr>,
    group_by: Option<usize>,
}

impl AggregateSpec {
    /// The expressions, in order.
    pub closed spec fn listed(&self) -> Seq<AggregateExpr> {
        self.expressions@
    }

    /// The grouping column, if any.
    pub closed spec fn grouping(&self) -> Option<usize> {
        self.group_by
    }

    pub fn new(expressions: Vec<AggregateExpr>) -> (result: Result<Self, EmptyAggregate>)
        ensures
            match result {
                Ok(spec) => expressions@.len() > 0 && spec.listed() == expressions@
                    && spec.grouping() is None,
                Err(_) => expressions@.len() == 0,
            },
    {
        Self::with_group_by(expressions, None)
    }

    pub fn grouped(group_by: usize, expressions: Vec<AggregateExpr>) -> (result: Result<
        Self,
        EmptyAggregate,
    >)
        ensures
            match result {
                Ok(spec) => expressions@.len() > 0 && spec.listed() == expressions@
                    && spec.grouping() == Some(group_by),
                Err(_) => expressions@.len() == 0,
            },
    {
        Self::with_group_by(expressions, Some(group_by))
    }

    fn with_group_by(expressions: Vec<AggregateExpr>, group_by: Option<usize>) -> (result: Result<
        Self,
        EmptyAggregate,
    >)
        ensures
            match result {
                Ok(spec) => expressions@.len() > 0 && spec.listed() == expressions@
                    && spec.grouping() == group_by,
                Err(_) => expressions@.len() == 0,
            },
    {
        if expressions.is_empty() {
            return Err(EmptyAggregate);
        }
        Ok(AggregateSpec { expressions, group_by })
    }

    pub fn expressions(&self) -> (expressions: &[AggregateExpr])
        ensures
            expressions@ == self.listed(),
    {
        self.expressions.as_slice()
    }

    pub fn group_by(&self) -> (column: Option<usize>)
        ensures
            column == self.grouping(),
    {
        self.group_by
    }

    /// A copy of this aggregate.
    pub fn copy(&self) -> (copy: Self)
        ensures
            copy.listed() == self.listed(),
            copy.grouping() == self.grouping(),
    {
        let mut expressions: Vec<AggregateExpr> = Vec::new();
        let mut i: usize = 0;
        while i < self.expressions.len()
            invariant
                i <= self.expressions@.len(),
                expressions@ == self.expressions@.take(i as int),
            decreases self.expressions@.len() - i,
        {
            expressions.push(self.expressions[i]);
            i = i + 1;
            assert(expressions@ =~= self.expressions@.take(i as int));
        }
        assert(expressions@ =~= self.expressions@);
        AggregateSpec { expressions, group_by: self.group_by }
    }
}

/// Bound on retained grouped aggregate state.
#[derive(Clone, Copy, Debug, PartialEq, Eq, Structural)]
pub struct GroupBudget {
    max_groups: usize,
    max_bytes: usize,
}

impl GroupBudget {
    pub const DEFAULT_MAX_GROUPS: usize = 10_000;

    pub const DEFAULT_MAX_BYTES: usize = 8_388_608;

    /// The bound on the number of groups.
    pub closed spec fn groups_bound(self) -> usize {
        self.max_groups
    }

    /// The byte bound.
    pub closed spec fn bytes_bound(self) -> usize {
        self.max_bytes
    }

    pub fn new(max_groups: usize, max_bytes: usize) -> (result: Result<Self, BudgetError>)
        ensures
            match result {
                Ok(budget) => max_groups > 0 && max_bytes > 0 && budget.groups_bound()
                    == max_groups && budget.bytes_bound() == max_bytes,
                Err(BudgetError::NoItems) => max_groups == 0,
                Err(BudgetError::NoBytes) => max_groups > 0 && max_bytes == 0,
            },
    {
        if max_groups == 0 {
            return Err(BudgetError::NoItems);
        }
        if max_bytes == 0 {
            return Err(BudgetError::NoBytes);
        }
        Ok(GroupBudget { max_groups, max_bytes })
    }

    pub fn max_groups(self) -> (groups: usize)
        ensures
            groups == self.groups_bound(),
    {
        self.max_groups
    }

    pub fn max_bytes(self) -> (bytes: usize)
        ensures
            bytes == self.bytes_bound(),
    {
        self.max_bytes
    }
}

impl Default for GroupBudget {
    fn default() -> (budget: Self)
        ensures
            budget.groups_bound() == GroupBudget::DEFAULT_MAX_GROUPS,
            budget.bytes_bound() == GroupBudget::DEFAULT_MAX_BYTES,
    {
        GroupBudget { max_groups: Self::DEFAULT_MAX_GROUPS, max_bytes: Self::DEFAULT_MAX_BYTES }
    }
}

} // verus!
