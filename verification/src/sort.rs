//! Sort keys and the bounds on an in-memory sort.

use vstd::prelude::*;

verus! {

/// Direction for one sort key.
#[derive(Clone, Copy, Debug, PartialEq, Eq, Structural)]
pub enum SortDirection {
    Ascending,
    Descending,
}

/// Explicit and stable placement for null sort values.
#[derive(Clone, Copy, Debug, PartialEq, Eq, Structural)]
pub enum NullOrder {
    First,
    Last,
}

/// One top-level source column and its ordering options.
#[derive(Clone, Copy, Debug, PartialEq, Eq, Structural)]
pub struct SortSpec {
    pub column: usize,
    pub direction: SortDirection,
    pub nulls: NullOrder,
}

/// Why a budget does not bound anything.
#[derive(Clone, Copy, Debug, PartialEq, Eq, Structural)]
pub enum BudgetError {
    /// The number of rows or groups is zero.
    NoItems,
    /// The number of bytes is zero.
    NoBytes,
}

/// Bound on the source rows and estimated workspace retained for one sort.
#[derive(Clone, Copy, Debug, PartialEq, Eq, Structural)]
pub struct SortBudget {
    max_rows: usize,
    max_bytes: usize,
}

impl SortSpec {
    pub fn new(column: usize, direction: SortDirection, nulls: NullOrder) -> (spec: Self)
        ensures
            spec.column == column,
            spec.direction == direction,
            spec.nulls == nulls,
    {
        SortSpec { column, direction, nulls }
    }
}

impl SortBudget {
    pub const DEFAULT_MAX_ROWS: usize = 100_000;

    pub const DEFAULT_MAX_BYTES: usize = 134_217_728;

    /// The row bound.
    pub closed spec fn rows_bound(self) -> usize {
        self.max_rows
    }

    /// The byte bound.
    pub closed spec fn bytes_bound(self) -> usize {
        self.max_bytes
    }

    pub fn new(max_rows: usize, max_bytes: usize) -> (result: Result<Self, BudgetError>)
        ensures
            match result {
                Ok(budget) => max_rows > 0 && max_bytes > 0 && budget.rows_bound() == max_rows
                    && budget.bytes_bound() == max_bytes,
                Err(BudgetError::NoItems) => max_rows == 0,
                Err(BudgetError::NoBytes) => max_rows > 0 && max_bytes == 0,
            },
    {
        if max_rows == 0 {
            return Err(BudgetError::NoItems);
        }
        if max_bytes == 0 {
            return Err(BudgetError::NoBytes);
        }
        Ok(SortBudget { max_rows, max_bytes })
    }

    pub fn max_rows(self) -> (rows: usize)
        ensures
            rows == self.rows_bound(),
    {
        self.max_rows
    }

    pub fn max_bytes(self) -> (bytes: usize)
        ensures
            bytes == self.bytes_bound(),
    {
        self.max_bytes
    }
}

impl Default for SortBudget {
    fn default() -> (budget: Self)
        ensures
            budget.rows_bound() == SortBudget::DEFAULT_MAX_ROWS,
            budget.bytes_bound() == SortBudget::DEFAULT_MAX_BYTES,
    {
        SortBudget { max_rows: Self::DEFAULT_MAX_ROWS, max_bytes: Self::DEFAULT_MAX_BYTES }
    }
}

} // verus!
