//! Grouped aggregation within a budget: groups are kept in the order in which
//! their keys are first seen.

use crate::accumulate::{
    acc_bytes, accumulated, model_of, steps_to, sum_from, takes_in, AccModel, Accumulator,
    AggregateError, FloatSum,
};
use crate::aggregate::{AggregateExpr, AggregateFunction, GroupBudget};
use crate::scalar::{
    column_rows, null_at, scalar_at, scalar_bytes, scalar_read, Column, FloatCell, Scalar,
    ScalarError, ScalarModel,
};
use crate::schema::{DataType, Field};
use vstd::prelude::*;

verus! {

/// One group: its key and its aggregates under way.
#[derive(Debug)]
pub struct GroupState {
    pub key: Scalar,
    pub accumulators: Vec<Accumulator>,
}

/// What a group is, as a mathematical value.
pub struct GroupModel {
    pub key: ScalarModel,
    pub accs: Seq<AccModel>,
}

/// The models of the aggregates.
pub open spec fn acc_models(accumulators: Seq<Accumulator>) -> Seq<AccModel> {
    accumulators.map_values(|acc: Accumulator| acc@)
}

impl View for GroupState {
    type V = GroupModel;

    open spec fn view(&self) -> GroupModel {
        GroupModel { key: self.key@, accs: acc_models(self.accumulators@) }
    }
}

/// The models of the groups.
pub open spec fn group_models(groups: Seq<GroupState>) -> Seq<GroupModel> {
    groups.map_values(|group: GroupState| group@)
}

/// The memory that a list of aggregates is charged for.
pub open spec fn accs_bytes(accs: Seq<AccModel>) -> nat
    decreases accs.len(),
{
    if accs.len() == 0 {
        0
    } else {
        accs_bytes(accs.drop_last()) + acc_bytes(accs.last())
    }
}

/// The memory that a group is charged for.
pub open spec fn group_bytes(group: GroupModel) -> nat {
    64 + scalar_bytes(group.key) + accs_bytes(group.accs)
}

/// The memory that all groups are charged for.
pub open spec fn groups_bytes(groups: Seq<GroupModel>) -> nat
    decreases groups.len(),
{
    if groups.len() == 0 {
        0
    } else {
        groups_bytes(groups.drop_last()) + group_bytes(groups.last())
    }
}

/// Where the group with this key stands.
pub open spec fn group_index(groups: Seq<GroupModel>, key: ScalarModel) -> Option<int>
    decreases groups.len(),
{
    if groups.len() == 0 {
        None
    } else if let Some(index) = group_index(groups.drop_last(), key) {
        Some(index)
    } else if groups.last().key == key {
        Some(groups.len() - 1)
    } else {
        None
    }
}

/// Whether no two groups have the same key.
pub open spec fn group_keys_distinct(groups: Seq<GroupModel>) -> bool {
    forall|i: int, j: int| 0 <= i < j < groups.len() ==> groups[i].key != groups[j].key
}

pub proof fn lemma_group_index(groups: Seq<GroupModel>, key: ScalarModel)
    ensures
        match group_index(groups, key) {
            Some(index) => 0 <= index < groups.len() && groups[index].key == key && forall|k: int|
                0 <= k < index ==> (#[trigger] groups[k]).key != key,
            None => forall|k: int| 0 <= k < groups.len() ==> (#[trigger] groups[k]).key != key,
        },
    decreases groups.len(),
{
    if groups.len() > 0 {
        let init = groups.drop_last();
        lemma_group_index(init, key);
        match group_index(init, key) {
            Some(index) => {
                assert(groups[index] == init[index]);
                assert forall|k: int| 0 <= k < index implies (#[trigger] groups[k]).key != key by {
                    assert(init[k].key != key);
                }
            },
            None => {
                assert forall|k: int| 0 <= k < init.len() implies (#[trigger] groups[k]).key
                    != key by {
                    assert(init[k].key != key);
                }
            },
        }
    }
}

pub proof fn lemma_groups_bytes_update(groups: Seq<GroupModel>, index: int, group: GroupModel)
    requires
        0 <= index < groups.len(),
    ensures
        groups_bytes(groups.update(index, group)) + group_bytes(groups[index]) == groups_bytes(
            groups,
        ) + group_bytes(group),
    decreases groups.len(),
{
    let init = groups.drop_last();
    let changed = groups.update(index, group);
    if index == groups.len() - 1 {
        assert(changed.drop_last() =~= init);
    } else {
        lemma_groups_bytes_update(init, index, group);
        assert(changed.drop_last() =~= init.update(index, group));
    }
}

pub proof fn lemma_group_within_total(groups: Seq<GroupModel>, index: int)
    requires
        0 <= index < groups.len(),
    ensures
        group_bytes(groups[index]) <= groups_bytes(groups),
    decreases groups.len(),
{
    if index < groups.len() - 1 {
        lemma_group_within_total(groups.drop_last(), index);
    }
}

proof fn lemma_accs_prefix(accs: Seq<AccModel>, k: int)
    requires
        0 <= k <= accs.len(),
    ensures
        accs_bytes(accs.take(k)) <= accs_bytes(accs),
    decreases accs.len(),
{
    if k == accs.len() {
        assert(accs.take(k) =~= accs);
    } else {
        lemma_accs_prefix(accs.drop_last(), k);
        assert(accs.drop_last().take(k) =~= accs.take(k));
    }
}

impl GroupState {
    /// The memory that this group is charged for, where it can be counted.
    pub fn bytes(&self) -> (bytes: Option<usize>)
        ensures
            match bytes {
                Some(n) => n == group_bytes(self@),
                None => group_bytes(self@) > usize::MAX,
            },
    {
        let key: usize = match self.key.bytes() {
            Some(key) => key,
            None => return None,
        };
        let mut total: usize = match key.checked_add(64) {
            Some(total) => total,
            None => return None,
        };
        let mut i: usize = 0;
        let ghost accs = self@.accs;
        assert(accs.take(0) =~= Seq::<AccModel>::empty());
        while i < self.accumulators.len()
            invariant
                accs == self@.accs,
                accs.len() == self.accumulators@.len(),
                i <= self.accumulators@.len(),
                total == 64 + scalar_bytes(self.key@) + accs_bytes(accs.take(i as int)),
            decreases self.accumulators@.len() - i,
        {
            proof {
                assert(accs.take(i + 1).drop_last() =~= accs.take(i as int));
                assert(accs[i as int] == self.accumulators@[i as int]@);
                lemma_accs_prefix(accs, i + 1);
            }
            let more: usize = match self.accumulators[i].bytes() {
                Some(more) => more,
                None => return None,
            };
            total = match total.checked_add(more) {
                Some(total) => total,
                None => return None,
            };
            i = i + 1;
        }
        assert(accs.take(i as int) =~= accs);
        Some(total)
    }
}

// ---------------------------------------------------------------------------
// What one row does to the groups
// ---------------------------------------------------------------------------

/// What the aggregates read of one row: the key of its group, and one value
/// per expression.
pub struct RowRead {
    pub key: Result<ScalarModel, AggregateError>,
    pub values: Seq<Result<Option<ScalarModel>, AggregateError>>,
}

/// The aggregates after the first `n` expressions took their value in. `sums`
/// holds the results of the floating-point additions.
pub open spec fn accs_after(
    accs: Seq<AccModel>,
    expressions: Seq<AggregateExpr>,
    values: Seq<Result<Option<ScalarModel>, AggregateError>>,
    sums: Seq<FloatSum>,
    n: nat,
) -> Result<Seq<AccModel>, AggregateError>
    decreases n,
{
    if n == 0 {
        Ok(accs)
    } else {
        match accs_after(accs, expressions, values, sums, (n - 1) as nat) {
            Err(error) => Err(error),
            Ok(so_far) => match values[n - 1] {
                Err(error) => Err(error),
                Ok(value) => match accumulated(
                    accs[n - 1],
                    expressions[n - 1].input() is None,
                    value,
                    sums[n - 1],
                ) {
                    Err(error) => Err(error),
                    Ok(acc) => Ok(so_far.update(n - 1, acc)),
                },
            },
        }
    }
}

/// Whether the floating-point additions that a row asks for may give `sums`: one
/// per expression, up to the first one that fails.
pub open spec fn sums_from<F: Fn(u64, FloatCell) -> FloatSum>(
    plus: F,
    accs: Seq<AccModel>,
    expressions: Seq<AggregateExpr>,
    values: Seq<Result<Option<ScalarModel>, AggregateError>>,
    sums: Seq<FloatSum>,
) -> bool {
    &&& sums.len() <= expressions.len()
    &&& sums.len() == expressions.len() || accs_after(accs, expressions, values, sums, sums.len()) is Err
    &&& forall|i: int|
        0 <= i < sums.len() && (#[trigger] values[i]) is Ok ==> sum_from(
            plus,
            accs[i],
            values[i]->Ok_0,
            sums[i],
        )
}

/// The groups with one for `key` among them, and where it stands; `initial` are
/// the aggregates of a new group.
pub open spec fn with_group(
    groups: Seq<GroupModel>,
    key: ScalarModel,
    initial: Seq<AccModel>,
    budget: GroupBudget,
) -> Result<(Seq<GroupModel>, int), AggregateError> {
    let added = GroupModel { key, accs: initial };
    match group_index(groups, key) {
        Some(index) => Ok((groups, index)),
        None => if groups.len() >= budget.groups_bound() {
            Err(AggregateError::GroupLimit(budget.groups_bound()))
        } else if groups_bytes(groups) + group_bytes(added) > budget.bytes_bound() {
            Err(AggregateError::ByteLimit(budget.bytes_bound()))
        } else {
            Ok((groups.push(added), groups.len() as int))
        },
    }
}

/// The groups after one more row.
pub open spec fn row_taken(
    groups: Seq<GroupModel>,
    row: RowRead,
    expressions: Seq<AggregateExpr>,
    initial: Seq<AccModel>,
    budget: GroupBudget,
    sums: Seq<FloatSum>,
) -> Result<Seq<GroupModel>, AggregateError> {
    match row.key {
        Err(error) => Err(error),
        Ok(key) => match with_group(groups, key, initial, budget) {
            Err(error) => Err(error),
            Ok((present, index)) => match accs_after(
                present[index].accs,
                expressions,
                row.values,
                sums,
                expressions.len(),
            ) {
                Err(error) => Err(error),
                Ok(accs) => {
                    let next = present.update(index, GroupModel { key, accs });
                    if groups_bytes(next) > budget.bytes_bound() {
                        Err(AggregateError::ByteLimit(budget.bytes_bound()))
                    } else {
                        Ok(next)
                    }
                },
            },
        },
    }
}

/// Whether taking one more row in can have this outcome, given what the
/// floating-point additions give.
pub open spec fn row_outcome<F: Fn(u64, FloatCell) -> FloatSum>(
    plus: F,
    groups: Seq<GroupModel>,
    row: RowRead,
    expressions: Seq<AggregateExpr>,
    initial: Seq<AccModel>,
    budget: GroupBudget,
    outcome: Result<Seq<GroupModel>, AggregateError>,
) -> bool {
    exists|sums: Seq<FloatSum>|
        #![trigger row_taken(groups, row, expressions, initial, budget, sums)]
        (match row.key {
            Ok(key) => match with_group(groups, key, initial, budget) {
                Ok((present, index)) => sums_from(
                    plus,
                    present[index].accs,
                    expressions,
                    row.values,
                    sums,
                ),
                Err(_) => true,
            },
            Err(_) => true,
        }) && row_taken(groups, row, expressions, initial, budget, sums) == outcome
}

/// Whether taking one more row in can lead from `middle` to `outcome`; nothing
/// follows on a failure.
pub open spec fn row_follows<F: Fn(u64, FloatCell) -> FloatSum>(
    plus: F,
    middle: Result<Seq<GroupModel>, AggregateError>,
    row: RowRead,
    expressions: Seq<AggregateExpr>,
    initial: Seq<AccModel>,
    budget: GroupBudget,
    outcome: Result<Seq<GroupModel>, AggregateError>,
) -> bool {
    match middle {
        Err(error) => outcome == Err::<Seq<GroupModel>, AggregateError>(error),
        Ok(so_far) => row_outcome(plus, so_far, row, expressions, initial, budget, outcome),
    }
}

/// Whether taking the rows in, one after the other, can have this outcome.
pub open spec fn rows_outcome<F: Fn(u64, FloatCell) -> FloatSum>(
    plus: F,
    groups: Seq<GroupModel>,
    rows: Seq<RowRead>,
    expressions: Seq<AggregateExpr>,
    initial: Seq<AccModel>,
    budget: GroupBudget,
    outcome: Result<Seq<GroupModel>, AggregateError>,
) -> bool
    decreases rows.len(),
{
    if rows.len() == 0 {
        outcome == Ok::<Seq<GroupModel>, AggregateError>(groups)
    } else {
        exists|middle: Result<Seq<GroupModel>, AggregateError>|
            rows_outcome(plus, groups, rows.drop_last(), expressions, initial, budget, middle)
                && #[trigger] row_follows(
                plus,
                middle,
                rows.last(),
                expressions,
                initial,
                budget,
                outcome,
            )
    }
}

proof fn lemma_accs_after_local(
    accs: Seq<AccModel>,
    expressions: Seq<AggregateExpr>,
    values: Seq<Result<Option<ScalarModel>, AggregateError>>,
    a: Seq<FloatSum>,
    b: Seq<FloatSum>,
    n: nat,
)
    requires
        forall|i: int| 0 <= i < n ==> a[i] == b[i],
    ensures
        accs_after(accs, expressions, values, a, n) == accs_after(
            accs,
            expressions,
            values,
            b,
            n,
        ),
    decreases n,
{
    if n > 0 {
        lemma_accs_after_local(accs, expressions, values, a, b, (n - 1) as nat);
    }
}

proof fn lemma_accs_after_error(
    accs: Seq<AccModel>,
    expressions: Seq<AggregateExpr>,
    values: Seq<Result<Option<ScalarModel>, AggregateError>>,
    sums: Seq<FloatSum>,
    k: nat,
    n: nat,
)
    requires
        k <= n,
        accs_after(accs, expressions, values, sums, k) is Err,
    ensures
        accs_after(accs, expressions, values, sums, n) == accs_after(
            accs,
            expressions,
            values,
            sums,
            k,
        ),
    decreases n,
{
    if k < n {
        lemma_accs_after_error(accs, expressions, values, sums, k, (n - 1) as nat);
    }
}

// ---------------------------------------------------------------------------
// Types
// ---------------------------------------------------------------------------

/// The type that an expression reads.
pub open spec fn input_type(expression: AggregateExpr, fields: Seq<Field>) -> Result<
    Option<DataType>,
    AggregateError,
> {
    match expression.input() {
        None => Ok(None),
        Some(column) => if column < fields.len() {
            Ok(Some(fields[column as int].data_type))
        } else {
            Err(AggregateError::ColumnOutOfRange(column))
        },
    }
}

/// The type that a function gives over values of type `input`.
pub open spec fn result_type(function: AggregateFunction, input: Option<DataType>) -> Result<
    DataType,
    AggregateError,
> {
    match function {
        AggregateFunction::Count => Ok(DataType::UInt64),
        AggregateFunction::Sum => if input is Some && input->0.signed() {
            Ok(DataType::Int64)
        } else if input is Some && input->0.unsigned() {
            Ok(DataType::UInt64)
        } else if input is Some && input->0.floating() {
            Ok(DataType::Float64)
        } else {
            Err(AggregateError::UnsupportedInput)
        },
        AggregateFunction::Avg => if input is Some && input->0.numeric() {
            Ok(DataType::Float64)
        } else {
            Err(AggregateError::UnsupportedInput)
        },
        _ => match input {
            Some(data_type) => Ok(data_type),
            None => Err(AggregateError::NeedsSourceColumn),
        },
    }
}

/// The first expression that reads a column which is not there.
pub open spec fn input_fault(expressions: Seq<AggregateExpr>, fields: Seq<Field>) -> Option<
    AggregateError,
>
    decreases expressions.len(),
{
    if expressions.len() == 0 {
        None
    } else if let Some(error) = input_fault(expressions.drop_last(), fields) {
        Some(error)
    } else {
        match input_type(expressions.last(), fields) {
            Err(error) => Some(error),
            Ok(_) => None,
        }
    }
}

/// The first expression whose function does not apply to what it reads.
pub open spec fn result_fault(expressions: Seq<AggregateExpr>, fields: Seq<Field>) -> Option<
    AggregateError,
>
    decreases expressions.len(),
{
    if expressions.len() == 0 {
        None
    } else if let Some(error) = result_fault(expressions.drop_last(), fields) {
        Some(error)
    } else {
        match input_type(expressions.last(), fields) {
            Err(error) => Some(error),
            Ok(input) => match result_type(expressions.last().operation(), input) {
                Err(error) => Some(error),
                Ok(_) => None,
            },
        }
    }
}

pub proof fn lemma_input_fault_prefix(expressions: Seq<AggregateExpr>, fields: Seq<Field>, k: int)
    requires
        0 <= k <= expressions.len(),
        input_fault(expressions.take(k), fields) is Some,
    ensures
        input_fault(expressions, fields) == input_fault(expressions.take(k), fields),
    decreases expressions.len() - k,
{
    if k < expressions.len() {
        assert(expressions.take(k + 1).drop_last() =~= expressions.take(k));
        lemma_input_fault_prefix(expressions, fields, k + 1);
    } else {
        assert(expressions.take(k) =~= expressions);
    }
}

pub proof fn lemma_result_fault_prefix(expressions: Seq<AggregateExpr>, fields: Seq<Field>, k: int)
    requires
        0 <= k <= expressions.len(),
        result_fault(expressions.take(k), fields) is Some,
    ensures
        result_fault(expressions, fields) == result_fault(expressions.take(k), fields),
    decreases expressions.len() - k,
{
    if k < expressions.len() {
        assert(expressions.take(k + 1).drop_last() =~= expressions.take(k));
        lemma_result_fault_prefix(expressions, fields, k + 1);
    } else {
        assert(expressions.take(k) =~= expressions);
    }
}

/// The type that an expression gives.
pub fn aggregate_output_type(function: AggregateFunction, input: Option<DataType>) -> (result:
    Result<DataType, AggregateError>)
    ensures
        result == result_type(function, input),
{
    match function {
        AggregateFunction::Count => Ok(DataType::UInt64),
        AggregateFunction::Sum => match input {
            Some(data_type) => if data_type.is_signed() {
                Ok(DataType::Int64)
            } else if data_type.is_unsigned() {
                Ok(DataType::UInt64)
            } else if data_type.is_floating() {
                Ok(DataType::Float64)
            } else {
                Err(AggregateError::UnsupportedInput)
            },
            None => Err(AggregateError::UnsupportedInput),
        },
        AggregateFunction::Avg => match input {
            Some(data_type) => if data_type.supports_numeric() {
                Ok(DataType::Float64)
            } else {
                Err(AggregateError::UnsupportedInput)
            },
            None => Err(AggregateError::UnsupportedInput),
        },
        _ => match input {
            Some(data_type) => Ok(data_type),
            None => Err(AggregateError::NeedsSourceColumn),
        },
    }
}


// ---------------------------------------------------------------------------
// Reading rows
// ---------------------------------------------------------------------------

/// What an aggregate reads, as far as it can be read.
pub open spec fn read_outcome(read: Result<ScalarModel, ScalarError>) -> Result<
    ScalarModel,
    AggregateError,
> {
    match read {
        Ok(scalar) => Ok(scalar),
        Err(error) => Err(AggregateError::Read(error)),
    }
}

/// What one expression reads in row `row`. Counting a column asks only whether
/// the value is null.
pub open spec fn value_read(
    columns: Seq<Column>,
    expression: AggregateExpr,
    input: Option<DataType>,
    position: Option<usize>,
    row: int,
) -> Result<Option<ScalarModel>, AggregateError> {
    match (input, position) {
        (Some(data_type), Some(position)) => if expression.operation()
            == AggregateFunction::Count {
            if null_at(columns[position as int], row) {
                Ok(Some(ScalarModel::Null))
            } else {
                Ok(Some(ScalarModel::Bool(true)))
            }
        } else {
            match read_outcome(scalar_read(columns[position as int], row, data_type)) {
                Ok(scalar) => Ok(Some(scalar)),
                Err(error) => Err(error),
            }
        },
        (None, None) => Ok(None),
        _ => Err(AggregateError::Inconsistent),
    }
}

/// What the expressions read in row `row`.
pub open spec fn values_read(
    columns: Seq<Column>,
    expressions: Seq<AggregateExpr>,
    inputs: Seq<Option<DataType>>,
    positions: Seq<Option<usize>>,
    row: int,
) -> Seq<Result<Option<ScalarModel>, AggregateError>> {
    Seq::new(
        expressions.len(),
        |i: int| value_read(columns, expressions[i], inputs[i], positions[i], row),
    )
}

/// Whether every position points at a column, and row `row` exists in each.
pub open spec fn readable(
    columns: Seq<Column>,
    positions: Seq<Option<usize>>,
    row: int,
) -> bool {
    &&& forall|i: int|
        0 <= i < positions.len() && (#[trigger] positions[i]) is Some ==> positions[i]->0
            < columns.len()
    &&& forall|c: int| 0 <= c < columns.len() ==> 0 <= row < column_rows(#[trigger] columns[c])
}

fn read_value(
    columns: &Vec<Column>,
    expression: AggregateExpr,
    input: Option<DataType>,
    position: Option<usize>,
    row: usize,
) -> (result: Result<Option<Scalar>, AggregateError>)
    requires
        position is Some ==> position->0 < columns@.len() && row < column_rows(
            columns@[position->0 as int],
        ),
    ensures
        match result {
            Ok(value) => value_read(columns@, expression, input, position, row as int) == Ok::<
                Option<ScalarModel>,
                AggregateError,
            >(model_of(value)),
            Err(error) => value_read(columns@, expression, input, position, row as int) == Err::<
                Option<ScalarModel>,
                AggregateError,
            >(error),
        },
{
    match (input, position) {
        (Some(data_type), Some(position)) => {
            if expression.function() == AggregateFunction::Count {
                if columns[position].is_null(row) {
                    Ok(Some(Scalar::Null))
                } else {
                    Ok(Some(Scalar::Bool(true)))
                }
            } else {
                match scalar_at(&columns[position], row, data_type) {
                    Ok(scalar) => Ok(Some(scalar)),
                    Err(error) => Err(AggregateError::Read(error)),
                }
            }
        },
        (None, None) => Ok(None),
        _ => Err(AggregateError::Inconsistent),
    }
}

impl GroupState {
    /// Takes one row in.
    pub fn take_row<F: Fn(u64, FloatCell) -> FloatSum>(
        &mut self,
        expressions: &Vec<AggregateExpr>,
        inputs: &Vec<Option<DataType>>,
        columns: &Vec<Column>,
        positions: &Vec<Option<usize>>,
        row: usize,
        plus: &F,
    ) -> (result: Result<(), AggregateError>)
        requires
            old(self).accumulators@.len() == expressions@.len(),
            inputs@.len() == expressions@.len(),
            positions@.len() == expressions@.len(),
            readable(columns@, positions@, row as int),
            forall|bits: u64, cell: FloatCell| #[trigger] plus.requires((bits, cell)),
        ensures
            final(self).key == old(self).key,
            final(self).accumulators@.len() == expressions@.len(),
            exists|sums: Seq<FloatSum>|
                #![trigger accs_after(
                    old(self)@.accs,
                    expressions@,
                    values_read(columns@, expressions@, inputs@, positions@, row as int),
                    sums,
                    expressions@.len(),
                )]
                sums_from(
                    *plus,
                    old(self)@.accs,
                    expressions@,
                    values_read(columns@, expressions@, inputs@, positions@, row as int),
                    sums,
                ) && accs_after(
                    old(self)@.accs,
                    expressions@,
                    values_read(columns@, expressions@, inputs@, positions@, row as int),
                    sums,
                    expressions@.len(),
                ) == match result {
                    Ok(_) => Ok::<Seq<AccModel>, AggregateError>(final(self)@.accs),
                    Err(error) => Err::<Seq<AccModel>, AggregateError>(error),
                },
    {
        let ghost accs = self@.accs;
        let ghost values = values_read(
            columns@,
            expressions@,
            inputs@,
            positions@,
            row as int,
        );
        let ghost mut sums: Seq<FloatSum> = Seq::empty();
        let ghost key = self.key;
        let mut i: usize = 0;
        while i < expressions.len()
            invariant
                i <= expressions@.len(),
                self.key == key,
                key == old(self).key,
                accs == old(self)@.accs,
                self.accumulators@.len() == expressions@.len(),
                accs.len() == expressions@.len(),
                inputs@.len() == expressions@.len(),
                positions@.len() == expressions@.len(),
                readable(columns@, positions@, row as int),
                forall|bits: u64, cell: FloatCell| #[trigger] plus.requires((bits, cell)),
                values == values_read(columns@, expressions@, inputs@, positions@, row as int),
                sums.len() == i,
                accs_after(accs, expressions@, values, sums, i as nat) == Ok::<
                    Seq<AccModel>,
                    AggregateError,
                >(self@.accs),
                forall|k: int| i <= k < accs.len() ==> self@.accs[k] == #[trigger] accs[k],
                forall|k: int|
                    0 <= k < i && (#[trigger] values[k]) is Ok ==> sum_from(
                        *plus,
                        accs[k],
                        values[k]->Ok_0,
                        sums[k],
                    ),
            decreases expressions@.len() - i,
        {
            let ghost before = self@.accs;
            assert(before[i as int] == accs[i as int]);
            assert(self.accumulators@[i as int]@ == accs[i as int]);
            assert(positions@[i as int] is Some ==> positions@[i as int]->0 < columns@.len());
            let read = read_value(columns, expressions[i], inputs[i], positions[i], row);
            let value = match read {
                Ok(value) => value,
                Err(error) => {
                    proof {
                        let none = FloatSum { bits: 0, finite: false };
                        let all = sums.push(none);
                        lemma_accs_after_local(accs, expressions@, values, sums, all, i as nat);
                        assert(values[i as int] == Err::<Option<ScalarModel>, AggregateError>(
                            error,
                        ));
                        assert(accs_after(accs, expressions@, values, all, (i + 1) as nat) is Err);
                        lemma_accs_after_error(
                            accs,
                            expressions@,
                            values,
                            all,
                            (i + 1) as nat,
                            expressions@.len(),
                        );
                        assert(sums_from(*plus, accs, expressions@, values, all));
                    }
                    return Err(error);
                },
            };
            let ghost given = model_of(value);
            assert(values[i as int] == Ok::<Option<ScalarModel>, AggregateError>(given));
            let count_all: bool = expressions[i].column().is_none();
            let updated = self.accumulators[i].update(count_all, value, plus);
            proof {
                let step = choose|sum: FloatSum|
                    sum_from(*plus, accs[i as int], given, sum) && match updated {
                        Ok(_) => #[trigger] accumulated(accs[i as int], count_all, given, sum)
                            == Ok::<AccModel, AggregateError>(self.accumulators@[i as int]@),
                        Err(error) => accumulated(accs[i as int], count_all, given, sum) == Err::<
                            AccModel,
                            AggregateError,
                        >(error),
                    };
                let all = sums.push(step);
                lemma_accs_after_local(accs, expressions@, values, sums, all, i as nat);
                assert(all[i as int] == step);
                assert(sum_from(*plus, accs[i as int], given, step));
                match updated {
                    Ok(_) => {
                        assert(self@.accs =~= before.update(
                            i as int,
                            self.accumulators@[i as int]@,
                        ));
                    },
                    Err(error) => {
                        assert(accs_after(accs, expressions@, values, all, (i + 1) as nat) is Err);
                        lemma_accs_after_error(
                            accs,
                            expressions@,
                            values,
                            all,
                            (i + 1) as nat,
                            expressions@.len(),
                        );
                    },
                }
                assert forall|k: int| 0 <= k < i + 1 && (#[trigger] values[k]) is Ok implies
                    sum_from(*plus, accs[k], values[k]->Ok_0, all[k]) by {
                    if k < i {
                        assert(all[k] == sums[k]);
                    }
                }
                sums = all;
            }
            if let Err(error) = updated {
                assert(sums_from(*plus, accs, expressions@, values, sums));
                return Err(error);
            }
            i = i + 1;
        }
        assert(sums_from(*plus, accs, expressions@, values, sums));
        Ok(())
    }
}

// ---------------------------------------------------------------------------
// What groups hold
// ---------------------------------------------------------------------------

proof fn lemma_each_steps<F: Fn(u64, FloatCell) -> FloatSum>(
    plus: F,
    accs: Seq<AccModel>,
    expressions: Seq<AggregateExpr>,
    values: Seq<Result<Option<ScalarModel>, AggregateError>>,
    sums: Seq<FloatSum>,
    n: nat,
)
    requires
        n <= expressions.len() <= accs.len(),
        values.len() == expressions.len(),
        sums_from(plus, accs, expressions, values, sums),
        accs_after(accs, expressions, values, sums, expressions.len()) is Ok,
        accs_after(accs, expressions, values, sums, n) is Ok,
    ensures
        accs_after(accs, expressions, values, sums, n)->Ok_0.len() == accs.len(),
        forall|i: int|
            0 <= i < n ==> (#[trigger] values[i]) is Ok && steps_to(
                plus,
                expressions[i].input() is None,
                accs[i],
                values[i]->Ok_0,
                accs_after(accs, expressions, values, sums, n)->Ok_0[i],
            ),
        forall|i: int|
            n <= i < accs.len() ==> #[trigger] accs_after(accs, expressions, values, sums, n)->Ok_0[i]
                == accs[i],
    decreases n,
{
    if n > 0 {
        let fewer = (n - 1) as nat;
        lemma_each_steps(plus, accs, expressions, values, sums, fewer);
        let so_far = accs_after(accs, expressions, values, sums, fewer)->Ok_0;
        let after = accs_after(accs, expressions, values, sums, n)->Ok_0;
        if sums.len() < expressions.len() {
            lemma_accs_after_error(accs, expressions, values, sums, sums.len(), expressions.len());
        }
        assert(values[n - 1] is Ok);
        assert(sum_from(plus, accs[n - 1], values[n - 1]->Ok_0, sums[n - 1]));
        assert forall|i: int| 0 <= i < n implies (#[trigger] values[i]) is Ok && steps_to(
            plus,
            expressions[i].input() is None,
            accs[i],
            values[i]->Ok_0,
            after[i],
        ) by {
            if i < fewer {
                assert(after[i] == so_far[i]);
            } else {
                assert(accumulated(
                    accs[i],
                    expressions[i].input() is None,
                    values[i]->Ok_0,
                    sums[i],
                ) == Ok::<AccModel, AggregateError>(after[i]));
            }
        }
    }
}

/// A row is taken into the group of its key and no other: each aggregate of that group
/// takes in what the row says to it, all other groups stay as they are, and a key that has
/// no group yet gets one behind the others, which starts from nothing.
pub proof fn law_row_goes_to_the_group_of_its_key<F: Fn(u64, FloatCell) -> FloatSum>(
    plus: F,
    groups: Seq<GroupModel>,
    row: RowRead,
    expressions: Seq<AggregateExpr>,
    initial: Seq<AccModel>,
    budget: GroupBudget,
    next: Seq<GroupModel>,
) -> (at: int)
    requires
        group_keys_distinct(groups),
        initial.len() == expressions.len(),
        row.values.len() == expressions.len(),
        forall|g: int|
            0 <= g < groups.len() ==> (#[trigger] groups[g]).accs.len() == expressions.len(),
        row_outcome(
            plus,
            groups,
            row,
            expressions,
            initial,
            budget,
            Ok::<Seq<GroupModel>, AggregateError>(next),
        ),
    ensures
        row.key is Ok,
        0 <= at < next.len(),
        next[at].key == row.key->Ok_0,
        next[at].accs.len() == expressions.len(),
        at < groups.len() ==> next.len() == groups.len() && groups[at].key == row.key->Ok_0,
        at >= groups.len() ==> at == groups.len() && next.len() == groups.len() + 1 && forall|g: int|
            0 <= g < groups.len() ==> (#[trigger] groups[g]).key != row.key->Ok_0,
        forall|g: int| 0 <= g < groups.len() && g != at ==> #[trigger] next[g] == groups[g],
        forall|i: int|
            0 <= i < expressions.len() ==> (#[trigger] row.values[i]) is Ok && steps_to(
                plus,
                expressions[i].input() is None,
                if at < groups.len() {
                    groups[at].accs[i]
                } else {
                    initial[i]
                },
                row.values[i]->Ok_0,
                next[at].accs[i],
            ),
        group_keys_distinct(next),
{
    let outcome = Ok::<Seq<GroupModel>, AggregateError>(next);
    let sums = choose|sums: Seq<FloatSum>|
        #![trigger row_taken(groups, row, expressions, initial, budget, sums)]
        (match row.key {
            Ok(key) => match with_group(groups, key, initial, budget) {
                Ok((present, index)) => sums_from(
                    plus,
                    present[index].accs,
                    expressions,
                    row.values,
                    sums,
                ),
                Err(_) => true,
            },
            Err(_) => true,
        }) && row_taken(groups, row, expressions, initial, budget, sums) == outcome;
    let key = row.key->Ok_0;
    lemma_group_index(groups, key);
    let (present, at) = with_group(groups, key, initial, budget)->Ok_0;
    lemma_each_steps(
        plus,
        present[at].accs,
        expressions,
        row.values,
        sums,
        expressions.len(),
    );
    assert forall|i: int, j: int| 0 <= i < j < next.len() implies next[i].key != next[j].key by {
        if j < groups.len() {
            assert(groups[i].key != groups[j].key);
        } else {
            assert(groups[i].key != key);
        }
    }
    at
}

/// The rows with a key.
pub open spec fn rows_with_key(rows: Seq<RowRead>, key: ScalarModel) -> Seq<RowRead>
    decreases rows.len(),
{
    if rows.len() == 0 {
        Seq::empty()
    } else if rows.last().key == Ok::<ScalarModel, AggregateError>(key) {
        rows_with_key(rows.drop_last(), key).push(rows.last())
    } else {
        rows_with_key(rows.drop_last(), key)
    }
}

/// What the rows say to the aggregate at `i`.
pub open spec fn said_to(rows: Seq<RowRead>, i: int) -> Seq<Option<ScalarModel>> {
    rows.map_values(|row: RowRead| row.values[i]->Ok_0)
}

/// Whether an aggregate can come from `start` to `end` by taking in a series of values.
pub open spec fn comes_to<F: Fn(u64, FloatCell) -> FloatSum>(
    plus: F,
    count_all: bool,
    start: AccModel,
    values: Seq<Option<ScalarModel>>,
    end: AccModel,
) -> bool {
    exists|accs: Seq<AccModel>| #[trigger]
        takes_in(plus, count_all, accs, values) && accs[0] == start && accs.last() == end
}

proof fn lemma_comes_to_more<F: Fn(u64, FloatCell) -> FloatSum>(
    plus: F,
    count_all: bool,
    start: AccModel,
    values: Seq<Option<ScalarModel>>,
    middle: AccModel,
    value: Option<ScalarModel>,
    end: AccModel,
)
    requires
        comes_to(plus, count_all, start, values, middle),
        steps_to(plus, count_all, middle, value, end),
    ensures
        comes_to(plus, count_all, start, values.push(value), end),
{
    let accs = choose|accs: Seq<AccModel>| #[trigger]
        takes_in(plus, count_all, accs, values) && accs[0] == start && accs.last() == middle;
    let more = accs.push(end);
    let all = values.push(value);
    assert forall|i: int| 0 <= i < all.len() implies steps_to(
        plus,
        count_all,
        more[i],
        #[trigger] all[i],
        more[i + 1],
    ) by {
        if i < values.len() {
            assert(all[i] == values[i]);
        }
    }
    assert(takes_in(plus, count_all, more, all));
}

/// Whether every row says as much as there are aggregates.
pub open spec fn rows_fit(rows: Seq<RowRead>, expressions: Seq<AggregateExpr>) -> bool {
    forall|r: int|
        0 <= r < rows.len() ==> (#[trigger] rows[r]).values.len() == expressions.len()
}

/// Whether groups hold, each for its key, what comes of taking in the rows with this key
/// and no others, in their order.
pub open spec fn groups_hold_rows<F: Fn(u64, FloatCell) -> FloatSum>(
    plus: F,
    groups: Seq<GroupModel>,
    rows: Seq<RowRead>,
    expressions: Seq<AggregateExpr>,
    initial: Seq<AccModel>,
) -> bool {
    &&& group_keys_distinct(groups)
    &&& forall|g: int|
        0 <= g < groups.len() ==> (#[trigger] groups[g]).accs.len() == expressions.len()
    &&& forall|g: int, i: int|
        0 <= g < groups.len() && 0 <= i < expressions.len() ==> comes_to(
            plus,
            expressions[i].input() is None,
            initial[i],
            said_to(rows_with_key(rows, groups[g].key), i),
            #[trigger] groups[g].accs[i],
        )
}

proof fn lemma_fresh_groups_hold_nothing<F: Fn(u64, FloatCell) -> FloatSum>(
    plus: F,
    groups: Seq<GroupModel>,
    expressions: Seq<AggregateExpr>,
    initial: Seq<AccModel>,
)
    requires
        initial.len() == expressions.len(),
        group_keys_distinct(groups),
        forall|g: int| 0 <= g < groups.len() ==> (#[trigger] groups[g]).accs == initial,
    ensures
        groups_hold_rows(plus, groups, Seq::empty(), expressions, initial),
{
    assert forall|g: int, i: int| 0 <= g < groups.len() && 0 <= i < expressions.len() implies comes_to(
        plus,
        expressions[i].input() is None,
        initial[i],
        said_to(rows_with_key(Seq::empty(), groups[g].key), i),
        #[trigger] groups[g].accs[i],
    ) by {
        lemma_comes_to_itself(plus, expressions[i].input() is None, initial[i], groups[g].key, i);
    }
}

proof fn lemma_comes_to_itself<F: Fn(u64, FloatCell) -> FloatSum>(
    plus: F,
    count_all: bool,
    acc: AccModel,
    key: ScalarModel,
    i: int,
)
    ensures
        comes_to(plus, count_all, acc, said_to(rows_with_key(Seq::empty(), key), i), acc),
{
    let values = said_to(rows_with_key(Seq::empty(), key), i);
    assert(values.len() == 0);
    assert(takes_in(plus, count_all, seq![acc], values));
    assert(seq![acc][0] == acc && seq![acc].last() == acc);
}

/// Grouping parts the rows by their keys: whatever rows were taken in, each key that occurs
/// has exactly one group, and the aggregates of a group are those of the rows with its key,
/// taken in one after the other; no row counts in two groups or in none. At the start there
/// may be groups that have seen no row.
pub proof fn law_groups_part_the_rows<F: Fn(u64, FloatCell) -> FloatSum>(
    plus: F,
    start: Seq<GroupModel>,
    rows: Seq<RowRead>,
    expressions: Seq<AggregateExpr>,
    initial: Seq<AccModel>,
    budget: GroupBudget,
    groups: Seq<GroupModel>,
)
    requires
        initial.len() == expressions.len(),
        rows_fit(rows, expressions),
        group_keys_distinct(start),
        forall|g: int| 0 <= g < start.len() ==> (#[trigger] start[g]).accs == initial,
        rows_outcome(
            plus,
            start,
            rows,
            expressions,
            initial,
            budget,
            Ok::<Seq<GroupModel>, AggregateError>(groups),
        ),
    ensures
        groups_hold_rows(plus, groups, rows, expressions, initial),
        forall|r: int|
            0 <= r < rows.len() ==> (#[trigger] rows[r]).key is Ok && exists|g: int|
                0 <= g < groups.len() && (#[trigger] groups[g]).key == rows[r].key->Ok_0,
        forall|g: int|
            0 <= g < start.len() ==> g < groups.len() && groups[g].key == (#[trigger] start[g]).key,
        forall|g: int|
            start.len() <= g < groups.len() ==> rows_with_key(
                rows,
                (#[trigger] groups[g]).key,
            ).len() > 0,
        start.len() <= groups.len(),
    decreases rows.len(),
{
    if rows.len() == 0 {
        assert(rows =~= Seq::<RowRead>::empty());
        lemma_fresh_groups_hold_nothing(plus, groups, expressions, initial);
    } else {
        let fewer = rows.drop_last();
        let last = rows.last();
        let outcome = Ok::<Seq<GroupModel>, AggregateError>(groups);
        let middle = choose|middle: Result<Seq<GroupModel>, AggregateError>|
            rows_outcome(plus, start, fewer, expressions, initial, budget, middle)
                && #[trigger] row_follows(
                plus,
                middle,
                last,
                expressions,
                initial,
                budget,
                outcome,
            );
        assert(middle is Ok);
        let before = middle->Ok_0;
        assert forall|r: int| 0 <= r < fewer.len() implies (#[trigger] fewer[r]).values.len()
            == expressions.len() by {
            assert(rows[r] == fewer[r]);
        }
        law_groups_part_the_rows(plus, start, fewer, expressions, initial, budget, before);
        assert(rows[rows.len() - 1].values.len() == expressions.len());
        let at = law_row_goes_to_the_group_of_its_key(
            plus,
            before,
            last,
            expressions,
            initial,
            budget,
            groups,
        );
        let key = last.key->Ok_0;
        if at >= before.len() {
            lemma_no_row_with_key(fewer, before, key);
        }
        assert forall|g: int| 0 <= g < groups.len() implies (#[trigger] groups[g]).accs.len()
            == expressions.len() by {
            if g != at {
                assert(groups[g] == before[g]);
            }
        }
        assert forall|g: int, i: int|
            0 <= g < groups.len() && 0 <= i < expressions.len() implies comes_to(
            plus,
            expressions[i].input() is None,
            initial[i],
            said_to(rows_with_key(rows, groups[g].key), i),
            #[trigger] groups[g].accs[i],
        ) by {
            let own = groups[g].key;
            let earlier = said_to(rows_with_key(fewer, own), i);
            let count_all = expressions[i].input() is None;
            if g == at {
                assert(said_to(rows_with_key(rows, own), i) =~= earlier.push(last.values[i]->Ok_0));
                assert(last.values[i] is Ok);
                let held = if at < before.len() {
                    before[at].accs[i]
                } else {
                    initial[i]
                };
                if at >= before.len() {
                    assert(rows_with_key(fewer, own) =~= Seq::<RowRead>::empty());
                    lemma_comes_to_itself(plus, count_all, initial[i], own, i);
                    assert(rows_with_key(Seq::empty(), own) =~= Seq::<RowRead>::empty());
                }
                assert(comes_to(plus, count_all, initial[i], earlier, held));
                lemma_comes_to_more(
                    plus,
                    count_all,
                    initial[i],
                    earlier,
                    held,
                    last.values[i]->Ok_0,
                    groups[g].accs[i],
                );
            } else {
                assert(groups[g] == before[g]);
                assert(own != key) by {
                    if g < at {
                        assert(groups[g].key != groups[at].key);
                    } else {
                        assert(groups[at].key != groups[g].key);
                    }
                }
                assert(rows_with_key(rows, own) == rows_with_key(fewer, own));
                assert(comes_to(plus, count_all, initial[i], earlier, before[g].accs[i]));
            }
        }
        assert forall|r: int| 0 <= r < rows.len() implies (#[trigger] rows[r]).key is Ok && exists|
            g: int,
        |
            0 <= g < groups.len() && (#[trigger] groups[g]).key == rows[r].key->Ok_0 by {
            if r < fewer.len() {
                assert(fewer[r] == rows[r]);
                let g = choose|g: int|
                    0 <= g < before.len() && (#[trigger] before[g]).key == fewer[r].key->Ok_0;
                assert(groups[g].key == before[g].key);
            } else {
                assert(groups[at].key == rows[r].key->Ok_0);
            }
        }
        assert forall|g: int| 0 <= g < start.len() implies g < groups.len() && groups[g].key == (
        #[trigger] start[g]).key by {
            assert(before[g].key == start[g].key);
            if g != at {
                assert(groups[g] == before[g]);
            }
        }
        assert forall|g: int| start.len() <= g < groups.len() implies rows_with_key(
            rows,
            (#[trigger] groups[g]).key,
        ).len() > 0 by {
            if g != at {
                assert(groups[g] == before[g]);
                assert(rows_with_key(fewer, before[g].key).len() > 0);
            }
        }
    }
}

proof fn lemma_no_row_with_key(rows: Seq<RowRead>, groups: Seq<GroupModel>, key: ScalarModel)
    requires
        forall|g: int| 0 <= g < groups.len() ==> (#[trigger] groups[g]).key != key,
        forall|r: int|
            0 <= r < rows.len() ==> (#[trigger] rows[r]).key is Ok && exists|g: int|
                0 <= g < groups.len() && (#[trigger] groups[g]).key == rows[r].key->Ok_0,
    ensures
        rows_with_key(rows, key).len() == 0,
    decreases rows.len(),
{
    if rows.len() > 0 {
        let fewer = rows.drop_last();
        assert forall|r: int| 0 <= r < fewer.len() implies (#[trigger] fewer[r]).key is Ok && exists|
            g: int,
        |
            0 <= g < groups.len() && (#[trigger] groups[g]).key == fewer[r].key->Ok_0 by {
            assert(rows[r] == fewer[r]);
        }
        lemma_no_row_with_key(fewer, groups, key);
        assert(rows[rows.len() - 1].key is Ok);
    }
}

/// An expression reads the value of its column in the row: `COUNT` only asks whether it is
/// null, an expression without a column reads nothing, and the others read the value itself.
pub proof fn law_expressions_read_their_columns(
    columns: Seq<Column>,
    expression: AggregateExpr,
    input: Option<DataType>,
    position: Option<usize>,
    row: int,
    value: Option<ScalarModel>,
)
    requires
        value_read(columns, expression, input, position, row) == Ok::<
            Option<ScalarModel>,
            AggregateError,
        >(value),
    ensures
        value is None <==> position is None,
        position matches Some(at) ==> (value == Some(ScalarModel::Null) <==> null_at(
            columns[at as int],
            row,
        ) || (expression.operation() != AggregateFunction::Count && crate::scalar::value_at(
            columns[at as int],
            row,
        ) is Null)),
        position matches Some(at) ==> expression.operation() != AggregateFunction::Count
            && !null_at(columns[at as int], row) ==> value == Some(
            crate::scalar::value_at(columns[at as int], row),
        ),
{
}

/// A group is refused only where there are as many groups as there may be, or where they
/// would have more bytes than they may; a key that has a group is never refused.
pub proof fn law_group_is_refused_only_beyond_the_budget(
    groups: Seq<GroupModel>,
    key: ScalarModel,
    initial: Seq<AccModel>,
    budget: GroupBudget,
)
    ensures
        with_group(groups, key, initial, budget) is Err <==> {
            &&& forall|g: int| 0 <= g < groups.len() ==> (#[trigger] groups[g]).key != key
            &&& groups.len() >= budget.groups_bound() || groups_bytes(groups) + group_bytes(
                GroupModel { key, accs: initial },
            ) > budget.bytes_bound()
        },
{
    lemma_group_index(groups, key);
}

} // verus!
