//! Collecting grouped aggregates over batches of columns.

use crate::accumulate::{
    accumulated, aggregate_value, fresh, model_of, present, AccModel, Accumulator, AggregateError,
    FloatSum,
};
use crate::aggregate::{AggregateExpr, AggregateFunction, AggregateSpec, GroupBudget};
use crate::groups::{
    accs_after, aggregate_output_type, group_index, group_keys_distinct, group_models, groups_bytes,
    input_fault, input_type, lemma_group_index, lemma_group_within_total, lemma_groups_bytes_update,
    lemma_input_fault_prefix, lemma_result_fault_prefix, read_outcome, readable, result_fault,
    result_type, row_follows, row_outcome, row_taken, rows_outcome, sums_from, value_read,
    values_read, with_group, GroupModel, GroupState, RowRead,
};
use crate::output::{
    build_array, output_holds, output_rows, output_type, writable, written, written_cell,
    OutputColumn, OutputError,
};
use crate::scalar::{
    column_rows, scalar_at, scalar_read, Column, FloatCell, Scalar, ScalarModel,
};
use crate::schema::{DataType, Field, Schema};
use crate::text::{cat, cat3};
use vstd::prelude::*;

verus! {

/// The groups found so far, with what is needed to update and to write them.
#[derive(Debug)]
pub struct GroupCollector {
    pub expressions: Vec<AggregateExpr>,
    pub input_types: Vec<Option<DataType>>,
    pub input_names: Vec<Option<String>>,
    pub output_types: Vec<DataType>,
    pub group_by: Option<(String, DataType)>,
    pub groups: Vec<GroupState>,
    pub bytes: usize,
    pub budget: GroupBudget,
}

/// The aggregates of a group that has seen no row.
pub open spec fn initial_accs(
    expressions: Seq<AggregateExpr>,
    inputs: Seq<Option<DataType>>,
) -> Seq<AccModel> {
    Seq::new(expressions.len(), |i: int| fresh(expressions[i].operation(), inputs[i])->Ok_0)
}

/// Whether an aggregate of this function holds values that fit its output type.
pub open spec fn acc_fits(acc: AccModel, function: AggregateFunction, output: DataType) -> bool {
    match (function, acc) {
        (AggregateFunction::Count, AccModel::Count(_)) => output == DataType::UInt64,
        (AggregateFunction::Sum, AccModel::SumI64(_)) => output == DataType::Int64,
        (AggregateFunction::Sum, AccModel::SumU64(_)) => output == DataType::UInt64,
        (AggregateFunction::Sum, AccModel::SumF64(_)) => output == DataType::Float64,
        (AggregateFunction::Avg, AccModel::Avg { .. }) => output == DataType::Float64,
        (AggregateFunction::Min, AccModel::Min(value)) => value is Some ==> written(
            output,
            value->0,
        ) is Some,
        (AggregateFunction::Max, AccModel::Max(value)) => value is Some ==> written(
            output,
            value->0,
        ) is Some,
        _ => false,
    }
}

/// Whether the aggregates fit the output types.
pub open spec fn accs_fit(
    accs: Seq<AccModel>,
    expressions: Seq<AggregateExpr>,
    outputs: Seq<DataType>,
) -> bool {
    accs.len() == expressions.len() && forall|i: int|
        0 <= i < accs.len() ==> acc_fits(
            #[trigger] accs[i],
            expressions[i].operation(),
            outputs[i],
        )
}

/// Whether a key is null or of the type that is grouped by.
pub open spec fn key_fits(key: ScalarModel, group_by: Option<DataType>) -> bool {
    key == ScalarModel::Null || (group_by is Some && written(group_by->0, key) is Some)
}

/// What row `row` of the columns says to the aggregates.
pub open spec fn row_read(
    columns: Seq<Column>,
    group_by: Option<DataType>,
    group_position: Option<usize>,
    expressions: Seq<AggregateExpr>,
    inputs: Seq<Option<DataType>>,
    positions: Seq<Option<usize>>,
    row: int,
) -> RowRead {
    RowRead {
        key: match (group_by, group_position) {
            (Some(data_type), Some(position)) => read_outcome(
                scalar_read(columns[position as int], row, data_type),
            ),
            (None, None) => Ok(ScalarModel::Null),
            _ => Err(AggregateError::Inconsistent),
        },
        values: values_read(columns, expressions, inputs, positions, row),
    }
}

/// What the first `count` rows of the columns say to the aggregates.
pub open spec fn rows_read(
    columns: Seq<Column>,
    group_by: Option<DataType>,
    group_position: Option<usize>,
    expressions: Seq<AggregateExpr>,
    inputs: Seq<Option<DataType>>,
    positions: Seq<Option<usize>>,
    count: nat,
) -> Seq<RowRead> {
    Seq::new(
        count,
        |row: int| row_read(columns, group_by, group_position, expressions, inputs, positions, row),
    )
}

/// What a collector starts with, or why there is none.
pub open spec fn collector_start(
    aggregate: AggregateSpec,
    fields: Seq<Field>,
    budget: GroupBudget,
) -> Result<Seq<GroupModel>, AggregateError> {
    let expressions = aggregate.listed();
    if let Some(error) = input_fault(expressions, fields) {
        Err(error)
    } else if let Some(error) = result_fault(expressions, fields) {
        Err(error)
    } else {
        match aggregate.grouping() {
            Some(column) => if column < fields.len() {
                Ok(Seq::empty())
            } else {
                Err(AggregateError::GroupOutOfRange(column))
            },
            None => match with_group(
                Seq::empty(),
                ScalarModel::Null,
                initial_accs(
                    expressions,
                    expressions.map_values(|e: AggregateExpr| input_type(e, fields)->Ok_0),
                ),
                budget,
            ) {
                Ok((groups, _)) => Ok(groups),
                Err(error) => Err(error),
            },
        }
    }
}

proof fn lemma_read_fits(column: Column, row: int, data_type: DataType)
    ensures
        match scalar_read(column, row, data_type) {
            Ok(scalar) => scalar == ScalarModel::Null || written(data_type, scalar) is Some,
            Err(_) => true,
        },
{
}

proof fn lemma_fresh_fits(function: AggregateFunction, input: Option<DataType>, output: DataType)
    requires
        result_type(function, input) == Ok::<DataType, AggregateError>(output),
    ensures
        fresh(function, input) is Ok,
        acc_fits(fresh(function, input)->Ok_0, function, output),
{
}

proof fn lemma_accumulated_fits(
    acc: AccModel,
    function: AggregateFunction,
    input: Option<DataType>,
    output: DataType,
    count_all: bool,
    value: Option<ScalarModel>,
    sum: FloatSum,
)
    requires
        acc_fits(acc, function, output),
        result_type(function, input) == Ok::<DataType, AggregateError>(output),
        function == AggregateFunction::Min || function == AggregateFunction::Max ==> (value is Some
            && value->0 != ScalarModel::Null ==> written(output, value->0) is Some),
    ensures
        accumulated(acc, count_all, value, sum) matches Ok(next) ==> acc_fits(
            next,
            function,
            output,
        ),
{
}

proof fn lemma_accs_after_fit(
    accs: Seq<AccModel>,
    columns: Seq<Column>,
    expressions: Seq<AggregateExpr>,
    inputs: Seq<Option<DataType>>,
    outputs: Seq<DataType>,
    positions: Seq<Option<usize>>,
    row: int,
    sums: Seq<FloatSum>,
    n: nat,
)
    requires
        n <= expressions.len(),
        accs_fit(accs, expressions, outputs),
        forall|i: int|
            0 <= i < expressions.len() ==> result_type(
                (#[trigger] expressions[i]).operation(),
                inputs[i],
            ) == Ok::<DataType, AggregateError>(outputs[i]),
    ensures
        accs_after(
            accs,
            expressions,
            values_read(columns, expressions, inputs, positions, row),
            sums,
            n,
        ) matches Ok(next) ==> accs_fit(next, expressions, outputs),
    decreases n,
{
    if n > 0 {
        lemma_accs_after_fit(
            accs,
            columns,
            expressions,
            inputs,
            outputs,
            positions,
            row,
            sums,
            (n - 1) as nat,
        );
        let i = n - 1;
        let values = values_read(columns, expressions, inputs, positions, row);
        assert(acc_fits(accs[i], expressions[i].operation(), outputs[i]));
        assert(values[i] == value_read(columns, expressions[i], inputs[i], positions[i], row));
        if values[i] is Ok {
            if inputs[i] is Some && positions[i] is Some {
                lemma_read_fits(columns[positions[i]->0 as int], row, inputs[i]->0);
            }
            lemma_accumulated_fits(
                accs[i],
                expressions[i].operation(),
                inputs[i],
                outputs[i],
                expressions[i].input() is None,
                values[i]->Ok_0,
                sums[i],
            );
        }
    }
}

impl GroupCollector {
    /// The groups, in the order in which their keys were first seen.
    pub open spec fn models(&self) -> Seq<GroupModel> {
        group_models(self.groups@)
    }

    /// The type that is grouped by.
    pub open spec fn group_type(&self) -> Option<DataType> {
        match self.group_by {
            Some((_, data_type)) => Some(data_type),
            None => None,
        }
    }

    /// The name of the column that is grouped by.
    pub open spec fn group_name(&self) -> Option<Seq<char>> {
        match self.group_by {
            Some((name, _)) => Some(name@),
            None => None,
        }
    }

    /// The expressions are typed, and every new group fits.
    pub open spec fn typed(&self) -> bool {
        &&& self.input_types@.len() == self.expressions@.len()
        &&& self.input_names@.len() == self.expressions@.len()
        &&& self.output_types@.len() == self.expressions@.len()
        &&& forall|i: int|
            0 <= i < self.expressions@.len() ==> result_type(
                (#[trigger] self.expressions@[i]).operation(),
                self.input_types@[i],
            ) == Ok::<DataType, AggregateError>(self.output_types@[i])
    }

    /// The groups have different keys, fit their types and respect the budget.
    pub open spec fn wf(&self) -> bool {
        &&& self.typed()
        &&& group_keys_distinct(self.models())
        &&& self.groups@.len() <= self.budget.groups_bound()
        &&& self.bytes == groups_bytes(self.models())
        &&& self.bytes <= self.budget.bytes_bound()
        &&& forall|g: int|
            0 <= g < self.models().len() ==> key_fits(
                (#[trigger] self.models()[g]).key,
                self.group_type(),
            ) && accs_fit(self.models()[g].accs, self.expressions@, self.output_types@)
    }

    /// What a new group starts with.
    pub open spec fn initial(&self) -> Seq<AccModel> {
        initial_accs(self.expressions@, self.input_types@)
    }

    /// Whether this collects an aggregate over a dataset with these columns: each
    /// expression has the type and the name of its column, and the keys have those of
    /// the grouping column.
    pub open spec fn collects(&self, aggregate: AggregateSpec, fields: Seq<Field>) -> bool {
        &&& self.expressions@ == aggregate.listed()
        &&& forall|i: int|
            0 <= i < aggregate.listed().len() ==> input_type(
                #[trigger] aggregate.listed()[i],
                fields,
            ) == Ok::<Option<DataType>, AggregateError>(self.input_types@[i])
                && match aggregate.listed()[i].input() {
                Some(column) => self.input_names@[i] is Some && self.input_names@[i]->0@
                    == fields[column as int].name@,
                None => self.input_names@[i] is None,
            }
        &&& match aggregate.grouping() {
            Some(column) => self.group_name() == Some(fields[column as int].name@)
                && self.group_type() == Some(fields[column as int].data_type),
            None => self.group_by is None,
        }
    }

    /// Whether everything but the groups is as it was.
    pub open spec fn same_setup(&self, other: &Self) -> bool {
        &&& self.expressions == other.expressions
        &&& self.input_types == other.input_types
        &&& self.input_names == other.input_names
        &&& self.output_types == other.output_types
        &&& self.group_by == other.group_by
        &&& self.budget == other.budget
    }

    fn find_group(&self, key: &Scalar) -> (found: Option<usize>)
        ensures
            match found {
                Some(index) => group_index(self.models(), key@) == Some(index as int) && index
                    < self.groups@.len(),
                None => group_index(self.models(), key@) is None,
            },
    {
        proof {
            lemma_group_index(self.models(), key@);
        }
        let mut index: usize = 0;
        while index < self.groups.len()
            invariant
                index <= self.groups@.len(),
                forall|k: int| 0 <= k < index ==> (#[trigger] self.models()[k]).key != key@,
                match group_index(self.models(), key@) {
                    Some(found) => 0 <= found < self.models().len() && self.models()[found].key
                        == key@ && forall|k: int|
                        0 <= k < found ==> (#[trigger] self.models()[k]).key != key@,
                    None => forall|k: int|
                        0 <= k < self.models().len() ==> (#[trigger] self.models()[k]).key != key@,
                },
            decreases self.groups@.len() - index,
        {
            assert(self.models()[index as int] == self.groups@[index as int]@);
            if self.groups[index].key.same_as(key) {
                return Some(index);
            }
            index = index + 1;
        }
        None
    }

    fn new_group(&self, key: Scalar) -> (group: GroupState)
        requires
            self.typed(),
        ensures
            group@ == (GroupModel { key: key@, accs: self.initial() }),
            accs_fit(self.initial(), self.expressions@, self.output_types@),
    {
        let mut accumulators: Vec<Accumulator> = Vec::new();
        let mut i: usize = 0;
        while i < self.expressions.len()
            invariant
                self.typed(),
                i <= self.expressions@.len(),
                accumulators@.len() == i,
                forall|k: int|
                    0 <= k < i ==> (#[trigger] accumulators@[k])@ == self.initial()[k] && acc_fits(
                        accumulators@[k]@,
                        self.expressions@[k].operation(),
                        self.output_types@[k],
                    ),
            decreases self.expressions@.len() - i,
        {
            let expression: AggregateExpr = self.expressions[i];
            proof {
                lemma_fresh_fits(
                    expression.operation(),
                    self.input_types@[i as int],
                    self.output_types@[i as int],
                );
            }
            match Accumulator::new(expression.function(), self.input_types[i]) {
                Ok(accumulator) => accumulators.push(accumulator),
                Err(_) => {
                    assert(false);
                },
            }
            i = i + 1;
        }
        let group = GroupState { key, accumulators };
        assert(group@.accs =~= self.initial());
        group
    }

    /// Makes sure that there is a group for `key`, and says where it stands.
    pub fn ensure_group(&mut self, key: Scalar) -> (result: Result<usize, AggregateError>)
        requires
            old(self).wf(),
            key_fits(key@, old(self).group_type()),
        ensures
            final(self).wf(),
            final(self).same_setup(old(self)),
            match result {
                Ok(index) => with_group(
                    old(self).models(),
                    key@,
                    old(self).initial(),
                    old(self).budget,
                ) == Ok::<(Seq<GroupModel>, int), AggregateError>(
                    (final(self).models(), index as int),
                ) && index < final(self).groups@.len() && final(self).models()[index as int].key
                    == key@,
                Err(error) => final(self).models() == old(self).models() && with_group(
                    old(self).models(),
                    key@,
                    old(self).initial(),
                    old(self).budget,
                ) == Err::<(Seq<GroupModel>, int), AggregateError>(error),
            },
    {
        let ghost before = self.models();
        proof {
            lemma_group_index(before, key@);
        }
        match self.find_group(&key) {
            Some(index) => return Ok(index),
            None => {},
        }
        if self.groups.len() >= self.budget.max_groups() {
            return Err(AggregateError::GroupLimit(self.budget.max_groups()));
        }
        let limit: usize = self.budget.max_bytes();
        let state = self.new_group(key);
        let size: usize = match state.bytes() {
            Some(size) => size,
            None => return Err(AggregateError::ByteLimit(limit)),
        };
        if size > limit - self.bytes {
            return Err(AggregateError::ByteLimit(limit));
        }
        let index: usize = self.groups.len();
        let ghost added = state@;
        self.bytes = self.bytes + size;
        self.groups.push(state);
        proof {
            let after = self.models();
            assert(after =~= before.push(added));
            assert(after.drop_last() =~= before);
            assert forall|i: int, j: int| 0 <= i < j < after.len() implies after[i].key
                != after[j].key by {
                if j < before.len() {
                    assert(before[i].key != before[j].key);
                } else {
                    assert(before[i].key != added.key);
                }
            }
            assert forall|g: int| 0 <= g < after.len() implies key_fits(
                (#[trigger] after[g]).key,
                self.group_type(),
            ) && accs_fit(after[g].accs, self.expressions@, self.output_types@) by {
                if g < before.len() {
                    assert(after[g] == before[g]);
                }
            }
        }
        Ok(index)
    }
}


impl GroupCollector {
    /// A collector for an aggregate over a dataset. Without a grouping column
    /// there is one group from the start.
    pub fn new(aggregate: &AggregateSpec, schema: &Schema, budget: GroupBudget) -> (result: Result<
        Self,
        AggregateError,
    >)
        ensures
            match result {
                Ok(collector) => {
                    &&& collector.wf()
                    &&& collector_start(*aggregate, schema.fields@, budget) == Ok::<
                        Seq<GroupModel>,
                        AggregateError,
                    >(collector.models())
                    &&& collector.budget == budget
                    &&& collector.collects(*aggregate, schema.fields@)
                },
                Err(error) => collector_start(*aggregate, schema.fields@, budget) == Err::<
                    Seq<GroupModel>,
                    AggregateError,
                >(error),
            },
    {
        let ghost listed = aggregate.listed();
        let ghost fields = schema.fields@;
        let given = aggregate.expressions();
        let mut expressions: Vec<AggregateExpr> = Vec::new();
        let mut input_types: Vec<Option<DataType>> = Vec::new();
        let mut input_names: Vec<Option<String>> = Vec::new();
        let mut i: usize = 0;
        assert(listed.take(0) =~= Seq::<AggregateExpr>::empty());
        while i < given.len()
            invariant
                listed == given@,
                listed == aggregate.listed(),
                fields == schema.fields@,
                i <= listed.len(),
                expressions@ == listed.take(i as int),
                input_types@.len() == i,
                input_names@.len() == i,
                input_fault(listed.take(i as int), fields) is None,
                forall|k: int|
                    0 <= k < i ==> input_type(#[trigger] listed[k], fields) == Ok::<
                        Option<DataType>,
                        AggregateError,
                    >(input_types@[k]) && match listed[k].input() {
                        Some(column) => input_names@[k] is Some && input_names@[k]->0@
                            == fields[column as int].name@,
                        None => input_names@[k] is None,
                    },
            decreases listed.len() - i,
        {
            let expression: AggregateExpr = given[i];
            assert(listed.take(i + 1).drop_last() =~= listed.take(i as int));
            assert(listed.take(i + 1).last() == expression);
            expressions.push(expression);
            match expression.column() {
                Some(column) => {
                    if column >= schema.fields.len() {
                        proof {
                            lemma_input_fault_prefix(listed, fields, i + 1);
                        }
                        return Err(AggregateError::ColumnOutOfRange(column));
                    }
                    input_types.push(Some(schema.fields[column].data_type));
                    input_names.push(Some(schema.fields[column].name.clone()));
                },
                None => {
                    input_types.push(None);
                    input_names.push(None);
                },
            }
            i = i + 1;
            assert(expressions@ =~= listed.take(i as int));
        }
        assert(listed.take(i as int) =~= listed);
        let mut output_types: Vec<DataType> = Vec::new();
        let mut j: usize = 0;
        while j < expressions.len()
            invariant
                expressions@ == listed,
                listed == aggregate.listed(),
                fields == schema.fields@,
                input_fault(listed, fields) is None,
                input_types@.len() == listed.len(),
                j <= listed.len(),
                output_types@.len() == j,
                result_fault(listed.take(j as int), fields) is None,
                forall|k: int|
                    0 <= k < listed.len() ==> input_type(#[trigger] listed[k], fields) == Ok::<
                        Option<DataType>,
                        AggregateError,
                    >(input_types@[k]),
                forall|k: int|
                    0 <= k < j ==> result_type(
                        (#[trigger] listed[k]).operation(),
                        input_types@[k],
                    ) == Ok::<DataType, AggregateError>(output_types@[k]),
            decreases listed.len() - j,
        {
            assert(listed.take(j + 1).drop_last() =~= listed.take(j as int));
            assert(listed.take(j + 1).last() == listed[j as int]);
            match aggregate_output_type(expressions[j].function(), input_types[j]) {
                Ok(output) => output_types.push(output),
                Err(error) => {
                    proof {
                        lemma_result_fault_prefix(listed, fields, j + 1);
                    }
                    return Err(error);
                },
            }
            j = j + 1;
        }
        assert(listed.take(j as int) =~= listed);
        let group_by: Option<(String, DataType)> = match aggregate.group_by() {
            Some(column) => {
                if column >= schema.fields.len() {
                    return Err(AggregateError::GroupOutOfRange(column));
                }
                Some((schema.fields[column].name.clone(), schema.fields[column].data_type))
            },
            None => None,
        };
        let grouped: bool = group_by.is_some();
        let mut collector = GroupCollector {
            expressions,
            input_types,
            input_names,
            output_types,
            group_by,
            groups: Vec::new(),
            bytes: 0,
            budget,
        };
        assert(collector.models() =~= Seq::<GroupModel>::empty());
        assert(collector.input_types@ =~= listed.map_values(
            |e: AggregateExpr| input_type(e, fields)->Ok_0,
        ));
        if !grouped {
            match collector.ensure_group(Scalar::Null) {
                Ok(_) => {},
                Err(error) => return Err(error),
            }
        }
        Ok(collector)
    }

    /// Takes one row of the columns in.
    fn update_row<F: Fn(u64, FloatCell) -> FloatSum>(
        &mut self,
        columns: &Vec<Column>,
        row: usize,
        group_position: Option<usize>,
        positions: &Vec<Option<usize>>,
        plus: &F,
    ) -> (result: Result<(), AggregateError>)
        requires
            old(self).wf(),
            positions@.len() == old(self).expressions@.len(),
            readable(columns@, positions@, row as int),
            group_position is Some ==> group_position->0 < columns@.len(),
            forall|bits: u64, cell: FloatCell| #[trigger] plus.requires((bits, cell)),
        ensures
            final(self).same_setup(old(self)),
            result is Ok ==> final(self).wf(),
            row_outcome(
                *plus,
                old(self).models(),
                row_read(
                    columns@,
                    old(self).group_type(),
                    group_position,
                    old(self).expressions@,
                    old(self).input_types@,
                    positions@,
                    row as int,
                ),
                old(self).expressions@,
                old(self).initial(),
                old(self).budget,
                match result {
                    Ok(_) => Ok::<Seq<GroupModel>, AggregateError>(final(self).models()),
                    Err(error) => Err::<Seq<GroupModel>, AggregateError>(error),
                },
            ),
    {
        let ghost before = self.models();
        let ghost initial = self.initial();
        let ghost expressions = self.expressions@;
        let ghost read = row_read(
            columns@,
            self.group_type(),
            group_position,
            self.expressions@,
            self.input_types@,
            positions@,
            row as int,
        );
        let ghost none = Seq::<FloatSum>::empty();
        let key: Scalar = match (&self.group_by, group_position) {
            (Some((_, data_type)), Some(position)) => {
                proof {
                    lemma_read_fits(columns@[position as int], row as int, *data_type);
                }
                match scalar_at(&columns[position], row, *data_type) {
                    Ok(key) => key,
                    Err(error) => {
                        let error = AggregateError::Read(error);
                        assert(row_taken(before, read, expressions, initial, self.budget, none)
                            == Err::<Seq<GroupModel>, AggregateError>(error));
                        return Err(error);
                    },
                }
            },
            (None, None) => Scalar::Null,
            _ => {
                let error = AggregateError::Inconsistent;
                assert(row_taken(before, read, expressions, initial, self.budget, none) == Err::<
                    Seq<GroupModel>,
                    AggregateError,
                >(error));
                return Err(error);
            },
        };
        let ghost key_model = key@;
        let index: usize = match self.ensure_group(key) {
            Ok(index) => index,
            Err(error) => {
                assert(row_taken(before, read, expressions, initial, self.budget, none) == Err::<
                    Seq<GroupModel>,
                    AggregateError,
                >(error));
                return Err(error);
            },
        };
        let ghost present = self.models();
        let ghost accs = present[index as int].accs;
        assert(self.groups@[index as int]@ == present[index as int]);
        proof {
            lemma_group_within_total(present, index as int);
        }
        let old_size: usize = match self.groups[index].bytes() {
            Some(size) => size,
            None => {
                assert(false);
                0
            },
        };
        assert(accs_fit(accs, expressions, self.output_types@));
        let taken = self.groups[index].take_row(
            &self.expressions,
            &self.input_types,
            columns,
            positions,
            row,
            plus,
        );
        let ghost sums = choose|sums: Seq<FloatSum>|
            #![trigger accs_after(accs, expressions, read.values, sums, expressions.len())]
            sums_from(*plus, accs, expressions, read.values, sums) && accs_after(
                accs,
                expressions,
                read.values,
                sums,
                expressions.len(),
            ) == match taken {
                Ok(_) => Ok::<Seq<AccModel>, AggregateError>(self.groups@[index as int]@.accs),
                Err(error) => Err::<Seq<AccModel>, AggregateError>(error),
            };
        let ghost outcome = row_taken(before, read, expressions, initial, self.budget, sums);
        if let Err(error) = taken {
            assert(outcome == Err::<Seq<GroupModel>, AggregateError>(error));
            return Err(error);
        }
        let ghost next = self.models();
        proof {
            assert(next =~= present.update(index as int, self.groups@[index as int]@));
            lemma_groups_bytes_update(present, index as int, self.groups@[index as int]@);
            lemma_group_within_total(next, index as int);
            lemma_accs_after_fit(
                accs,
                columns@,
                expressions,
                self.input_types@,
                self.output_types@,
                positions@,
                row as int,
                sums,
                expressions.len(),
            );
        }
        let limit: usize = self.budget.max_bytes();
        let new_size: usize = match self.groups[index].bytes() {
            Some(size) => size,
            None => {
                assert(outcome == Err::<Seq<GroupModel>, AggregateError>(
                    AggregateError::ByteLimit(limit),
                ));
                return Err(AggregateError::ByteLimit(limit));
            },
        };
        let rest: usize = self.bytes - old_size;
        if new_size > limit - rest {
            assert(outcome == Err::<Seq<GroupModel>, AggregateError>(
                AggregateError::ByteLimit(limit),
            ));
            return Err(AggregateError::ByteLimit(limit));
        }
        self.bytes = rest + new_size;
        proof {
            assert(self.models() == next);
            assert(outcome == Ok::<Seq<GroupModel>, AggregateError>(next));
            assert forall|i: int, j: int| 0 <= i < j < next.len() implies next[i].key
                != next[j].key by {
                assert(present[i].key != present[j].key);
            }
            assert forall|g: int| 0 <= g < next.len() implies key_fits(
                (#[trigger] next[g]).key,
                self.group_type(),
            ) && accs_fit(next[g].accs, self.expressions@, self.output_types@) by {
                assert(key_fits(present[g].key, self.group_type()));
            }
        }
        Ok(())
    }

    /// Takes the first `rows` rows of the columns in, one after the other.
    pub fn update_batch<F: Fn(u64, FloatCell) -> FloatSum>(
        &mut self,
        columns: &Vec<Column>,
        rows: usize,
        group_position: Option<usize>,
        positions: &Vec<Option<usize>>,
        plus: &F,
    ) -> (result: Result<(), AggregateError>)
        requires
            old(self).wf(),
            positions@.len() == old(self).expressions@.len(),
            forall|i: int|
                0 <= i < positions@.len() && (#[trigger] positions@[i]) is Some ==> positions@[i]->0
                    < columns@.len(),
            group_position is Some ==> group_position->0 < columns@.len(),
            forall|c: int| 0 <= c < columns@.len() ==> column_rows(#[trigger] columns@[c]) == rows,
            forall|bits: u64, cell: FloatCell| #[trigger] plus.requires((bits, cell)),
        ensures
            final(self).same_setup(old(self)),
            result is Ok ==> final(self).wf(),
            rows_outcome(
                *plus,
                old(self).models(),
                rows_read(
                    columns@,
                    old(self).group_type(),
                    group_position,
                    old(self).expressions@,
                    old(self).input_types@,
                    positions@,
                    rows as nat,
                ),
                old(self).expressions@,
                old(self).initial(),
                old(self).budget,
                match result {
                    Ok(_) => Ok::<Seq<GroupModel>, AggregateError>(final(self).models()),
                    Err(error) => Err::<Seq<GroupModel>, AggregateError>(error),
                },
            ),
    {
        let ghost start = self.models();
        let ghost initial = self.initial();
        let ghost expressions = self.expressions@;
        let ghost inputs = self.input_types@;
        let ghost group_type = self.group_type();
        let ghost budget = self.budget;
        let ghost all = rows_read(
            columns@,
            group_type,
            group_position,
            expressions,
            inputs,
            positions@,
            rows as nat,
        );
        let mut row: usize = 0;
        assert(all.take(0) =~= Seq::<RowRead>::empty());
        while row < rows
            invariant
                row <= rows,
                all.len() == rows,
                self.wf(),
                self.same_setup(old(self)),
                expressions == old(self).expressions@,
                inputs == old(self).input_types@,
                group_type == old(self).group_type(),
                initial == old(self).initial(),
                budget == old(self).budget,
                start == old(self).models(),
                all == rows_read(
                    columns@,
                    group_type,
                    group_position,
                    expressions,
                    inputs,
                    positions@,
                    rows as nat,
                ),
                positions@.len() == expressions.len(),
                forall|i: int|
                    0 <= i < positions@.len() && (#[trigger] positions@[i]) is Some
                        ==> positions@[i]->0 < columns@.len(),
                group_position is Some ==> group_position->0 < columns@.len(),
                forall|c: int|
                    0 <= c < columns@.len() ==> column_rows(#[trigger] columns@[c]) == rows,
                forall|bits: u64, cell: FloatCell| #[trigger] plus.requires((bits, cell)),
                rows_outcome(
                    *plus,
                    start,
                    all.take(row as int),
                    expressions,
                    initial,
                    budget,
                    Ok::<Seq<GroupModel>, AggregateError>(self.models()),
                ),
            decreases rows - row,
        {
            let ghost before = self.models();
            let ghost prefix = all.take(row + 1);
            assert(prefix.drop_last() =~= all.take(row as int));
            assert(prefix.last() == all[row as int]);
            let taken = self.update_row(columns, row, group_position, positions, plus);
            assert(row_follows(
                *plus,
                Ok::<Seq<GroupModel>, AggregateError>(before),
                prefix.last(),
                expressions,
                initial,
                budget,
                match taken {
                    Ok(_) => Ok::<Seq<GroupModel>, AggregateError>(self.models()),
                    Err(error) => Err::<Seq<GroupModel>, AggregateError>(error),
                },
            ));
            if let Err(error) = taken {
                let ghost failed = Err::<Seq<GroupModel>, AggregateError>(error);
                assert(rows_outcome(*plus, start, prefix, expressions, initial, budget, failed));
                proof {
                    lemma_rows_outcome_error(
                        *plus,
                        start,
                        all,
                        expressions,
                        initial,
                        budget,
                        error,
                        row + 1,
                    );
                }
                return Err(error);
            }
            row = row + 1;
            assert(rows_outcome(
                *plus,
                start,
                prefix,
                expressions,
                initial,
                budget,
                Ok::<Seq<GroupModel>, AggregateError>(self.models()),
            ));
        }
        assert(all.take(row as int) =~= all);
        Ok(())
    }
}

proof fn lemma_rows_outcome_error<F: Fn(u64, FloatCell) -> FloatSum>(
    plus: F,
    groups: Seq<GroupModel>,
    rows: Seq<RowRead>,
    expressions: Seq<AggregateExpr>,
    initial: Seq<AccModel>,
    budget: GroupBudget,
    error: AggregateError,
    k: int,
)
    requires
        0 <= k <= rows.len(),
        rows_outcome(
            plus,
            groups,
            rows.take(k),
            expressions,
            initial,
            budget,
            Err::<Seq<GroupModel>, AggregateError>(error),
        ),
    ensures
        rows_outcome(
            plus,
            groups,
            rows,
            expressions,
            initial,
            budget,
            Err::<Seq<GroupModel>, AggregateError>(error),
        ),
    decreases rows.len() - k,
{
    if k < rows.len() {
        assert(rows.take(k + 1).drop_last() =~= rows.take(k));
        let failed = Err::<Seq<GroupModel>, AggregateError>(error);
        let last = rows.take(k + 1).last();
        assert(row_follows(plus, failed, last, expressions, initial, budget, failed));
        assert(rows_outcome(plus, groups, rows.take(k + 1), expressions, initial, budget, failed));
        lemma_rows_outcome_error(
            plus,
            groups,
            rows,
            expressions,
            initial,
            budget,
            error,
            k + 1,
        );
    } else {
        assert(rows.take(k) =~= rows);
    }
}


// ---------------------------------------------------------------------------
// Counting without reading
// ---------------------------------------------------------------------------

/// The first `n` counts with `rows` added to each.
pub open spec fn counts_added(accs: Seq<AccModel>, rows: u64, n: nat) -> Result<
    Seq<AccModel>,
    AggregateError,
>
    decreases n,
{
    if n == 0 {
        Ok(accs)
    } else {
        match counts_added(accs, rows, (n - 1) as nat) {
            Err(error) => Err(error),
            Ok(so_far) => match accs[n - 1] {
                AccModel::Count(count) => if count + rows <= u64::MAX {
                    Ok(so_far.update(n - 1, AccModel::Count((count + rows) as u64)))
                } else {
                    Err(AggregateError::CountOverflow)
                },
                _ => Err(AggregateError::NotACount),
            },
        }
    }
}

proof fn lemma_counts_error(accs: Seq<AccModel>, rows: u64, k: nat, n: nat)
    requires
        k <= n,
        counts_added(accs, rows, k) is Err,
    ensures
        counts_added(accs, rows, n) == counts_added(accs, rows, k),
    decreases n,
{
    if k < n {
        lemma_counts_error(accs, rows, k, (n - 1) as nat);
    }
}

impl GroupCollector {
    /// Counts `rows` rows at once in the one group of an aggregate that only
    /// counts rows.
    pub fn update_count_all(&mut self, rows: u64) -> (result: Result<(), AggregateError>)
        requires
            old(self).wf(),
            old(self).groups@.len() > 0,
        ensures
            final(self).same_setup(old(self)),
            final(self).groups@.len() == old(self).groups@.len(),
            match result {
                Ok(_) => {
                    &&& final(self).wf()
                    &&& counts_added(
                        old(self).models()[0].accs,
                        rows,
                        old(self).expressions@.len(),
                    ) == Ok::<Seq<AccModel>, AggregateError>(final(self).models()[0].accs)
                    &&& final(self).models() == old(self).models().update(
                        0,
                        GroupModel {
                            key: old(self).models()[0].key,
                            accs: final(self).models()[0].accs,
                        },
                    )
                },
                Err(error) => counts_added(
                    old(self).models()[0].accs,
                    rows,
                    old(self).expressions@.len(),
                ) == Err::<Seq<AccModel>, AggregateError>(error),
            },
    {
        let ghost before = self.models();
        let ghost first = before[0];
        let ghost accs = first.accs;
        assert(self.groups@[0]@ == first);
        assert(accs_fit(accs, self.expressions@, self.output_types@));
        let mut i: usize = 0;
        while i < self.groups[0].accumulators.len()
            invariant
                self.same_setup(old(self)),
                self.typed(),
                self.bytes == old(self).bytes,
                before == old(self).models(),
                self.groups@.len() == old(self).groups@.len(),
                self.groups@.len() > 0,
                accs == before[0].accs,
                accs.len() == self.expressions@.len(),
                accs_fit(accs, self.expressions@, self.output_types@),
                self.groups@[0]@.accs.len() == accs.len(),
                self.groups@[0]@.key == before[0].key,
                forall|g: int| 1 <= g < self.groups@.len() ==> self.groups@[g]@ == before[g],
                i <= accs.len(),
                counts_added(accs, rows, i as nat) == Ok::<Seq<AccModel>, AggregateError>(
                    self.groups@[0]@.accs,
                ),
                forall|k: int| i <= k < accs.len() ==> self.groups@[0]@.accs[k] == accs[k],
                crate::groups::accs_bytes(self.groups@[0]@.accs) == crate::groups::accs_bytes(accs),
                accs_fit(self.groups@[0]@.accs, self.expressions@, self.output_types@),
            decreases accs.len() - i,
        {
            let ghost held = self.groups@[0]@.accs;
            assert(held[i as int] == accs[i as int]);
            assert(self.groups@[0].accumulators@[i as int]@ == held[i as int]);
            let more: u64 = match &self.groups[0].accumulators[i] {
                Accumulator::Count(count) => {
                    match (*count).checked_add(rows) {
                        Some(more) => more,
                        None => {
                            proof {
                                lemma_counts_error(accs, rows, (i + 1) as nat, accs.len());
                            }
                            return Err(AggregateError::CountOverflow);
                        },
                    }
                },
                _ => {
                    proof {
                        lemma_counts_error(accs, rows, (i + 1) as nat, accs.len());
                    }
                    return Err(AggregateError::NotACount);
                },
            };
            let group = &mut self.groups[0];
            group.accumulators[i] = Accumulator::Count(more);
            proof {
                let now = self.groups@[0]@.accs;
                assert(now =~= held.update(i as int, AccModel::Count(more)));
                lemma_same_charge(held, i as int, AccModel::Count(more));
                assert(acc_fits(
                    accs[i as int],
                    self.expressions@[i as int].operation(),
                    self.output_types@[i as int],
                ));
            }
            i = i + 1;
        }
        proof {
            let next = self.models();
            let group = self.groups@[0]@;
            assert(next =~= before.update(0, group));
            lemma_groups_bytes_update(before, 0, group);
            assert forall|a: int, b: int| 0 <= a < b < next.len() implies next[a].key
                != next[b].key by {
                assert(before[a].key != before[b].key);
            }
            assert forall|g: int| 0 <= g < next.len() implies key_fits(
                (#[trigger] next[g]).key,
                self.group_type(),
            ) && accs_fit(next[g].accs, self.expressions@, self.output_types@) by {
                assert(key_fits(before[g].key, self.group_type()));
            }
        }
        Ok(())
    }
}

proof fn lemma_same_charge(accs: Seq<AccModel>, i: int, acc: AccModel)
    requires
        0 <= i < accs.len(),
        crate::accumulate::acc_bytes(acc) == crate::accumulate::acc_bytes(accs[i]),
    ensures
        crate::groups::accs_bytes(accs.update(i, acc)) == crate::groups::accs_bytes(accs),
    decreases accs.len(),
{
    let changed = accs.update(i, acc);
    if i == accs.len() - 1 {
        assert(changed.drop_last() =~= accs.drop_last());
    } else {
        lemma_same_charge(accs.drop_last(), i, acc);
        assert(changed.drop_last() =~= accs.drop_last().update(i, acc));
    }
}

// ---------------------------------------------------------------------------
// Writing the result
// ---------------------------------------------------------------------------

/// One column of the result.
#[derive(Debug)]
pub struct OutputField {
    pub name: String,
    pub data_type: DataType,
    pub nullable: bool,
    pub column: OutputColumn,
}

/// The name of a function.
pub open spec fn function_text(function: AggregateFunction) -> Seq<char> {
    match function {
        AggregateFunction::Count => "COUNT"@,
        AggregateFunction::Sum => "SUM"@,
        AggregateFunction::Avg => "AVG"@,
        AggregateFunction::Min => "MIN"@,
        AggregateFunction::Max => "MAX"@,
    }
}

/// The name of the column that an expression gives.
pub open spec fn output_name(expression: AggregateExpr, input: Option<Seq<char>>) -> Seq<char> {
    if expression.operation() == AggregateFunction::Count && expression.input() is None {
        "COUNT(*)"@
    } else if expression.input() is Some && input is Some {
        function_text(expression.operation()) + "("@ + input->0 + ")"@
    } else {
        function_text(expression.operation())
    }
}

fn function_name(function: AggregateFunction) -> (name: &'static str)
    ensures
        name@ == function_text(function),
{
    match function {
        AggregateFunction::Count => "COUNT",
        AggregateFunction::Sum => "SUM",
        AggregateFunction::Avg => "AVG",
        AggregateFunction::Min => "MIN",
        AggregateFunction::Max => "MAX",
    }
}

/// The name of the column that an expression gives.
pub fn aggregate_name(expression: AggregateExpr, input: &Option<String>) -> (name: String)
    ensures
        name@ == output_name(
            expression,
            match *input {
                Some(column) => Some(column@),
                None => None,
            },
        ),
{
    let function = function_name(expression.function());
    match (expression.function(), expression.column(), input) {
        (AggregateFunction::Count, None, _) => "COUNT(*)".to_owned(),
        (_, Some(_), Some(column)) => cat(cat3(function, "(", column.as_str()).as_str(), ")"),
        _ => function.to_owned(),
    }
}

/// Whether the column holds, in row `row`, the aggregate that `acc` stands for.
pub open spec fn holds_aggregate<D: Fn(u64, u64) -> u64>(
    divide: D,
    column: OutputColumn,
    data_type: DataType,
    acc: AccModel,
    row: int,
) -> bool {
    exists|value: Option<Scalar>|
        #[trigger] aggregate_value(divide, acc, model_of(value)) && output_holds(
            column,
            row,
            written_cell(data_type, value),
        )
}

/// Whether the column holds, group by group, the aggregates at `i`.
pub open spec fn holds_aggregates<D: Fn(u64, u64) -> u64>(
    divide: D,
    column: OutputColumn,
    data_type: DataType,
    groups: Seq<GroupModel>,
    i: int,
) -> bool {
    output_type(column) == data_type && output_rows(column) == groups.len() && forall|g: int|
        0 <= g < groups.len() ==> holds_aggregate(
            divide,
            column,
            data_type,
            (#[trigger] groups[g]).accs[i],
            g,
        )
}

proof fn lemma_value_writable<D: Fn(u64, u64) -> u64>(
    divide: D,
    acc: AccModel,
    function: AggregateFunction,
    output: DataType,
    value: Option<Scalar>,
)
    requires
        acc_fits(acc, function, output),
        aggregate_value(divide, acc, model_of(value)),
    ensures
        writable(output, value),
{
}

impl GroupCollector {
    fn aggregate_column<D: Fn(u64, u64) -> u64>(&self, i: usize, divide: &D) -> (result: Result<
        OutputColumn,
        OutputError,
    >)
        requires
            self.wf(),
            i < self.expressions@.len(),
            forall|sum: u64, count: u64| #[trigger] divide.requires((sum, count)),
        ensures
            match result {
                Ok(column) => self.output_types@[i as int].comparable() && holds_aggregates(
                    *divide,
                    column,
                    self.output_types@[i as int],
                    self.models(),
                    i as int,
                ),
                Err(error) => !self.output_types@[i as int].comparable() && error
                    == OutputError::Unsupported(self.output_types@[i as int]),
            },
    {
        let output: DataType = self.output_types[i];
        let mut values: Vec<Option<Scalar>> = Vec::new();
        let mut g: usize = 0;
        while g < self.groups.len()
            invariant
                self.wf(),
                i < self.expressions@.len(),
                output == self.output_types@[i as int],
                forall|sum: u64, count: u64| #[trigger] divide.requires((sum, count)),
                g <= self.groups@.len(),
                values@.len() == g,
                forall|k: int|
                    0 <= k < g ==> aggregate_value(
                        *divide,
                        self.models()[k].accs[i as int],
                        model_of(#[trigger] values@[k]),
                    ) && writable(output, values@[k]),
            decreases self.groups@.len() - g,
        {
            assert(self.models()[g as int] == self.groups@[g as int]@);
            assert(accs_fit(self.models()[g as int].accs, self.expressions@, self.output_types@));
            assert(self.models()[g as int].accs[i as int]
                == self.groups@[g as int].accumulators@[i as int]@);
            let value = self.groups[g].accumulators[i].value(divide);
            proof {
                assert(acc_fits(
                    self.models()[g as int].accs[i as int],
                    self.expressions@[i as int].operation(),
                    output,
                ));
                lemma_value_writable(
                    *divide,
                    self.models()[g as int].accs[i as int],
                    self.expressions@[i as int].operation(),
                    output,
                    value,
                );
            }
            values.push(value);
            g = g + 1;
        }
        let result = build_array(output, &values);
        proof {
            if result is Ok {
                let column = result->Ok_0;
                let groups = self.models();
                assert forall|g: int| 0 <= g < groups.len() implies holds_aggregate(
                    *divide,
                    column,
                    output,
                    (#[trigger] groups[g]).accs[i as int],
                    g,
                ) by {
                    assert(writable(output, values@[g]));
                    assert(aggregate_value(
                        *divide,
                        groups[g].accs[i as int],
                        model_of(values@[g]),
                    ));
                }
            }
        }
        result
    }

    fn key_column(&self, data_type: DataType) -> (result: Result<OutputColumn, OutputError>)
        requires
            self.wf(),
            self.group_type() == Some(data_type),
        ensures
            match result {
                Ok(column) => data_type.comparable() && output_type(column) == data_type
                    && output_rows(column) == self.models().len() && forall|g: int|
                    0 <= g < self.models().len() ==> output_holds(
                        column,
                        g,
                        key_cell(data_type, (#[trigger] self.models()[g]).key),
                    ),
                Err(error) => !data_type.comparable() && error == OutputError::Unsupported(
                    data_type,
                ),
            },
    {
        let mut keys: Vec<Option<Scalar>> = Vec::new();
        let mut g: usize = 0;
        while g < self.groups.len()
            invariant
                self.wf(),
                self.group_type() == Some(data_type),
                g <= self.groups@.len(),
                keys@.len() == g,
                forall|k: int|
                    0 <= k < g ==> (#[trigger] keys@[k]) is Some && keys@[k]->0@
                        == self.models()[k].key && writable(data_type, keys@[k]),
            decreases self.groups@.len() - g,
        {
            assert(self.models()[g as int] == self.groups@[g as int]@);
            assert(key_fits(self.models()[g as int].key, self.group_type()));
            keys.push(Some(self.groups[g].key.copy()));
            g = g + 1;
        }
        let result = build_array(data_type, &keys);
        proof {
            if result is Ok {
                let column = result->Ok_0;
                assert forall|g: int| 0 <= g < self.models().len() implies output_holds(
                    column,
                    g,
                    key_cell(data_type, (#[trigger] self.models()[g]).key),
                ) by {
                    assert(writable(data_type, keys@[g]));
                }
            }
        }
        result
    }

    /// The first type that cannot be written: that of the key, then those of
    /// the expressions.
    pub open spec fn unwritable(&self) -> Option<DataType> {
        match self.group_type() {
            Some(data_type) => if !data_type.comparable() {
                Some(data_type)
            } else {
                first_unwritable(self.output_types@)
            },
            None => first_unwritable(self.output_types@),
        }
    }

    /// Writes the groups: a column with the keys where there is a grouping
    /// column, then one column per expression.
    pub fn finish<D: Fn(u64, u64) -> u64>(self, divide: &D) -> (result: Result<
        Vec<OutputField>,
        OutputError,
    >)
        requires
            self.wf(),
            forall|sum: u64, count: u64| #[trigger] divide.requires((sum, count)),
        ensures
            match result {
                Ok(fields) => {
                    let first: int = if self.group_by is Some {
                        1
                    } else {
                        0
                    };
                    &&& self.unwritable() is None
                    &&& fields@.len() == first + self.expressions@.len()
                    &&& self.group_by is Some ==> {
                        &&& Some(fields@[0].name@) == self.group_name()
                        &&& Some(fields@[0].data_type) == self.group_type()
                        &&& fields@[0].nullable
                        &&& output_rows(fields@[0].column) == self.models().len()
                        &&& forall|g: int|
                            0 <= g < self.models().len() ==> output_holds(
                                fields@[0].column,
                                g,
                                key_cell(
                                    self.group_type()->0,
                                    (#[trigger] self.models()[g]).key,
                                ),
                            )
                    }
                    &&& forall|i: int|
                        0 <= i < self.expressions@.len() ==> self.expression_written(
                            *divide,
                            #[trigger] fields@[first + i],
                            i,
                        )
                },
                Err(error) => self.unwritable() is Some && error == OutputError::Unsupported(
                    self.unwritable()->0,
                ),
            },
    {
        let mut fields: Vec<OutputField> = Vec::new();
        match &self.group_by {
            Some((name, data_type)) => {
                match self.key_column(*data_type) {
                    Ok(column) => fields.push(
                        OutputField {
                            name: name.clone(),
                            data_type: *data_type,
                            nullable: true,
                            column,
                        },
                    ),
                    Err(error) => return Err(error),
                }
            },
            None => {},
        }
        let ghost first: int = fields@.len() as int;
        let ghost head = fields@;
        let mut i: usize = 0;
        assert(self.output_types@.take(0) =~= Seq::<DataType>::empty());
        while i < self.expressions.len()
            invariant
                self.wf(),
                forall|sum: u64, count: u64| #[trigger] divide.requires((sum, count)),
                i <= self.expressions@.len(),
                first == head.len(),
                first == if self.group_by is Some {
                    1int
                } else {
                    0int
                },
                self.group_type() is Some ==> self.group_type()->0.comparable(),
                fields@.len() == first + i,
                fields@.take(first) == head,
                first_unwritable(self.output_types@.take(i as int)) is None,
                forall|k: int|
                    0 <= k < i ==> self.expression_written(
                        *divide,
                        #[trigger] fields@[first + k],
                        k,
                    ),
            decreases self.expressions@.len() - i,
        {
            proof {
                assert(self.output_types@.take(i + 1).drop_last() =~= self.output_types@.take(
                    i as int,
                ));
                assert(self.output_types@.take(i + 1).last() == self.output_types@[i as int]);
            }
            let column = match self.aggregate_column(i, divide) {
                Ok(column) => column,
                Err(error) => {
                    proof {
                        lemma_unwritable_prefix(self.output_types@, i + 1);
                    }
                    return Err(error);
                },
            };
            let ghost before = fields@;
            fields.push(
                OutputField {
                    name: aggregate_name(self.expressions[i], &self.input_names[i]),
                    data_type: self.output_types[i],
                    nullable: self.expressions[i].function() != AggregateFunction::Count,
                    column,
                },
            );
            proof {
                assert(fields@.take(first) =~= before.take(first));
                assert forall|k: int| 0 <= k < i + 1 implies self.expression_written(
                    *divide,
                    #[trigger] fields@[first + k],
                    k,
                ) by {
                    if k < i {
                        assert(fields@[first + k] == before[first + k]);
                    }
                }
            }
            i = i + 1;
        }
        proof {
            assert(self.output_types@.take(i as int) =~= self.output_types@);
            if first == 1 {
                assert(fields@[0] == fields@.take(first)[0]);
            }
        }
        Ok(fields)
    }

    /// Whether a column of the result is that of expression `i`.
    pub open spec fn expression_written<D: Fn(u64, u64) -> u64>(
        &self,
        divide: D,
        field: OutputField,
        i: int,
    ) -> bool {
        &&& field.name@ == output_name(
            self.expressions@[i],
            match self.input_names@[i] {
                Some(column) => Some(column@),
                None => None,
            },
        )
        &&& field.data_type == self.output_types@[i]
        &&& field.nullable == (self.expressions@[i].operation() != AggregateFunction::Count)
        &&& holds_aggregates(divide, field.column, self.output_types@[i], self.models(), i)
    }
}

/// The first type that no aggregate gives.
pub open spec fn first_unwritable(types: Seq<DataType>) -> Option<DataType>
    decreases types.len(),
{
    if types.len() == 0 {
        None
    } else if let Some(found) = first_unwritable(types.drop_last()) {
        Some(found)
    } else if types.last().comparable() {
        None
    } else {
        Some(types.last())
    }
}

proof fn lemma_unwritable_prefix(types: Seq<DataType>, k: int)
    requires
        0 <= k <= types.len(),
        first_unwritable(types.take(k)) is Some,
    ensures
        first_unwritable(types) == first_unwritable(types.take(k)),
    decreases types.len() - k,
{
    if k < types.len() {
        assert(types.take(k + 1).drop_last() =~= types.take(k));
        lemma_unwritable_prefix(types, k + 1);
    } else {
        assert(types.take(k) =~= types);
    }
}

/// What a key is in the column of the keys.
pub open spec fn key_cell(data_type: DataType, key: ScalarModel) -> Option<
    crate::output::CellModel,
> {
    if key == ScalarModel::Null {
        None
    } else {
        written(data_type, key)
    }
}

/// The groups stay within their budget, in number and in bytes, and no key has two
/// of them.
pub proof fn law_group_state_is_bounded(collector: &GroupCollector)
    requires
        collector.wf(),
    ensures
        collector.models().len() <= collector.budget.groups_bound(),
        groups_bytes(collector.models()) <= collector.budget.bytes_bound(),
        group_keys_distinct(collector.models()),
{
}

/// What comes of an aggregate over no rows. Without a grouping column there is one
/// group, in which every count is 0 and everything else is null; with one there is none.
pub proof fn law_nothing_is_aggregated<D: Fn(u64, u64) -> u64>(
    divide: D,
    aggregate: AggregateSpec,
    fields: Seq<Field>,
    collector: &GroupCollector,
)
    requires
        collector.wf(),
        collector.collects(aggregate, fields),
        collector_start(aggregate, fields, collector.budget) == Ok::<
            Seq<GroupModel>,
            AggregateError,
        >(collector.models()),
    ensures
        aggregate.grouping() is Some ==> collector.models().len() == 0,
        aggregate.grouping() is None ==> collector.models().len() == 1 && forall|
            i: int,
            value: Option<ScalarModel>,
        |
            0 <= i < aggregate.listed().len() && #[trigger] aggregate_value(
                divide,
                collector.models()[0].accs[i],
                value,
            ) ==> value == if aggregate.listed()[i].operation() == AggregateFunction::Count {
                Some(ScalarModel::U64(0))
            } else {
                None
            },
{
    if aggregate.grouping() is None {
        reveal_with_fuel(crate::groups::group_index, 2);
        let inputs = aggregate.listed().map_values(
            |e: AggregateExpr| input_type(e, fields)->Ok_0,
        );
        assert(collector.models()[0].accs == initial_accs(aggregate.listed(), inputs));
        assert forall|i: int, value: Option<ScalarModel>|
            0 <= i < aggregate.listed().len() && #[trigger] aggregate_value(
                divide,
                collector.models()[0].accs[i],
                value,
            ) implies value == if aggregate.listed()[i].operation() == AggregateFunction::Count {
            Some(ScalarModel::U64(0))
        } else {
            None
        } by {
            let expression = aggregate.listed()[i];
            assert(inputs[i] == collector.input_types@[i]);
            assert(expression == collector.expressions@[i]);
            lemma_fresh_fits(
                expression.operation(),
                collector.input_types@[i],
                collector.output_types@[i],
            );
        }
    }
}

/// The column of an aggregate is named after its function and the column it is of; a count
/// of rows is of no column.
pub proof fn law_aggregate_column_is_named_after_it(
    function: AggregateFunction,
    column: usize,
    name: Seq<char>,
)
    ensures
        ({
            let expression = AggregateExpr::of(function, Some(column));
            let title = output_name(expression, Some(name));
            let word = function_text(function);
            &&& title.len() == word.len() + name.len() + 2
            &&& title.take(word.len() as int) == word
            &&& title[word.len() as int] == '('
            &&& title.subrange(word.len() as int + 1, title.len() - 1) == name
            &&& title.last() == ')'
        }),
{
    AggregateExpr::law_expression_has_its_parts(function, Some(column));
    reveal_strlit("(");
    reveal_strlit(")");
    let title = output_name(AggregateExpr::of(function, Some(column)), Some(name));
    let word = function_text(function);
    assert(title == word + "("@ + name + ")"@);
    assert(title.take(word.len() as int) =~= word);
    assert(title.subrange(word.len() as int + 1, title.len() - 1) =~= name);
}

} // verus!
