//! Aggregates of one group, updated one value at a time.

use crate::aggregate::AggregateFunction;
use crate::scalar::{
    lemma_scalar_order, same_kind, scalar_bytes, scalar_compare, scalar_number, scalar_order,
    FloatCell, Scalar, ScalarError, ScalarModel,
};
use crate::schema::DataType;
use crate::text::Comparison;
use vstd::prelude::*;

verus! {

/// The result of a floating-point addition: the bits of the sum, and whether
/// it is finite.
#[derive(Clone, Copy, Debug, PartialEq, Eq, Structural)]
pub struct FloatSum {
    pub bits: u64,
    pub finite: bool,
}

/// Why an aggregate cannot be computed.
#[derive(Clone, Copy, Debug, PartialEq, Eq, Structural)]
pub enum AggregateError {
    CountOverflow,
    SignedMismatch,
    SignedOverflow,
    UnsignedMismatch,
    UnsignedOverflow,
    NotNumeric,
    FloatOverflow,
    AvgOverflow,
    AvgCountOverflow,
    SumNeedsNumeric,
    UnsupportedInput,
    NeedsSourceColumn,
    ColumnOutOfRange(usize),
    GroupOutOfRange(usize),
    GroupLimit(usize),
    ByteLimit(usize),
    NotACount,
    /// A position was given for a column that the aggregate does not read, or
    /// none for one that it reads.
    Inconsistent,
    Read(ScalarError),
}

/// One aggregate under way. Floating-point sums are held by their bits.
#[derive(Debug)]
pub enum Accumulator {
    Count(u64),
    SumI64(Option<i64>),
    SumU64(Option<u64>),
    SumF64(Option<u64>),
    Avg { sum: u64, count: u64 },
    Min(Option<Scalar>),
    Max(Option<Scalar>),
}

/// What an aggregate under way is, as a mathematical value.
pub enum AccModel {
    Count(u64),
    SumI64(Option<i64>),
    SumU64(Option<u64>),
    SumF64(Option<u64>),
    Avg { sum: u64, count: u64 },
    Min(Option<ScalarModel>),
    Max(Option<ScalarModel>),
}

/// The model of a scalar that may be missing.
pub open spec fn model_of(value: Option<Scalar>) -> Option<ScalarModel> {
    match value {
        Some(scalar) => Some(scalar@),
        None => None,
    }
}

impl View for Accumulator {
    type V = AccModel;

    open spec fn view(&self) -> AccModel {
        match self {
            Accumulator::Count(count) => AccModel::Count(*count),
            Accumulator::SumI64(sum) => AccModel::SumI64(*sum),
            Accumulator::SumU64(sum) => AccModel::SumU64(*sum),
            Accumulator::SumF64(sum) => AccModel::SumF64(*sum),
            Accumulator::Avg { sum, count } => AccModel::Avg { sum: *sum, count: *count },
            Accumulator::Min(value) => AccModel::Min(model_of(*value)),
            Accumulator::Max(value) => AccModel::Max(model_of(*value)),
        }
    }
}

/// An aggregate that has seen no value yet.
pub open spec fn fresh(function: AggregateFunction, input: Option<DataType>) -> Result<
    AccModel,
    AggregateError,
> {
    match function {
        AggregateFunction::Count => Ok(AccModel::Count(0)),
        AggregateFunction::Sum => match input {
            Some(data_type) => if data_type.signed() {
                Ok(AccModel::SumI64(None))
            } else if data_type.unsigned() {
                Ok(AccModel::SumU64(None))
            } else if data_type.floating() {
                Ok(AccModel::SumF64(None))
            } else {
                Err(AggregateError::SumNeedsNumeric)
            },
            None => Err(AggregateError::SumNeedsNumeric),
        },
        AggregateFunction::Avg => Ok(AccModel::Avg { sum: 0, count: 0 }),
        AggregateFunction::Min => Ok(AccModel::Min(None)),
        AggregateFunction::Max => Ok(AccModel::Max(None)),
    }
}

/// The value, unless it is missing or null.
pub open spec fn present(value: Option<ScalarModel>) -> Option<ScalarModel> {
    match value {
        Some(scalar) => if scalar == ScalarModel::Null {
            None
        } else {
            Some(scalar)
        },
        None => None,
    }
}

/// The sum so far; an empty sum is zero, whose bits are zero.
pub open spec fn or_zero(sum: Option<u64>) -> u64 {
    match sum {
        Some(bits) => bits,
        None => 0,
    }
}

/// The floating-point addition that the next value asks for, if any: the bits
/// of the sum so far, and what is added to it.
pub open spec fn float_operands(acc: AccModel, value: Option<ScalarModel>) -> Option<
    (u64, FloatCell),
> {
    match (acc, present(value)) {
        (AccModel::SumF64(sum), Some(scalar)) => match scalar_number(scalar) {
            Some(cell) => Some((or_zero(sum), cell)),
            None => None,
        },
        (AccModel::Avg { sum, .. }, Some(scalar)) => match scalar_number(scalar) {
            Some(cell) => Some((sum, cell)),
            None => None,
        },
        _ => None,
    }
}

/// The aggregate after one more value, where `sum` is the result of the
/// floating-point addition that it asks for. `count_all` says that rows are
/// counted whatever their value is.
pub open spec fn accumulated(
    acc: AccModel,
    count_all: bool,
    value: Option<ScalarModel>,
    sum: FloatSum,
) -> Result<AccModel, AggregateError> {
    match acc {
        AccModel::Count(count) => if count_all || present(value) is Some {
            if count == u64::MAX {
                Err(AggregateError::CountOverflow)
            } else {
                Ok(AccModel::Count((count + 1) as u64))
            }
        } else {
            Ok(acc)
        },
        AccModel::SumI64(total) => match present(value) {
            None => Ok(acc),
            Some(ScalarModel::I64(term)) => {
                let next = (if total is Some {
                    total->0
                } else {
                    0
                }) + term;
                if i64::MIN <= next <= i64::MAX {
                    Ok(AccModel::SumI64(Some(next as i64)))
                } else {
                    Err(AggregateError::SignedOverflow)
                }
            },
            Some(_) => Err(AggregateError::SignedMismatch),
        },
        AccModel::SumU64(total) => match present(value) {
            None => Ok(acc),
            Some(ScalarModel::U64(term)) => {
                let next = (if total is Some {
                    total->0
                } else {
                    0
                }) + term;
                if next <= u64::MAX {
                    Ok(AccModel::SumU64(Some(next as u64)))
                } else {
                    Err(AggregateError::UnsignedOverflow)
                }
            },
            Some(_) => Err(AggregateError::UnsignedMismatch),
        },
        AccModel::SumF64(_) => match present(value) {
            None => Ok(acc),
            Some(scalar) => if scalar_number(scalar) is None {
                Err(AggregateError::NotNumeric)
            } else if sum.finite {
                Ok(AccModel::SumF64(Some(sum.bits)))
            } else {
                Err(AggregateError::FloatOverflow)
            },
        },
        AccModel::Avg { count, .. } => match present(value) {
            None => Ok(acc),
            Some(scalar) => if scalar_number(scalar) is None {
                Err(AggregateError::NotNumeric)
            } else if !sum.finite {
                Err(AggregateError::AvgOverflow)
            } else if count == u64::MAX {
                Err(AggregateError::AvgCountOverflow)
            } else {
                Ok(AccModel::Avg { sum: sum.bits, count: (count + 1) as u64 })
            },
        },
        AccModel::Min(current) => match present(value) {
            None => Ok(acc),
            Some(scalar) => if current is None || scalar_order(scalar, current->0)
                == Comparison::Less {
                Ok(AccModel::Min(Some(scalar)))
            } else {
                Ok(acc)
            },
        },
        AccModel::Max(current) => match present(value) {
            None => Ok(acc),
            Some(scalar) => if current is None || scalar_order(scalar, current->0)
                == Comparison::Greater {
                Ok(AccModel::Max(Some(scalar)))
            } else {
                Ok(acc)
            },
        },
    }
}

/// What a failed update leaves: the aggregate as it was, but for an average whose
/// values can no longer be counted, which has added the value to its sum.
pub open spec fn left_over(acc: AccModel, error: AggregateError, sum: FloatSum) -> AccModel {
    match (acc, error) {
        (AccModel::Avg { count, .. }, AggregateError::AvgCountOverflow) => AccModel::Avg {
            sum: sum.bits,
            count,
        },
        _ => acc,
    }
}

/// Whether `sum` is what `plus` may give for the addition that the next value
/// asks for.
pub open spec fn sum_from<F: Fn(u64, FloatCell) -> FloatSum>(
    plus: F,
    acc: AccModel,
    value: Option<ScalarModel>,
    sum: FloatSum,
) -> bool {
    match float_operands(acc, value) {
        Some((bits, cell)) => plus.ensures((bits, cell), sum),
        None => true,
    }
}

/// The memory that an aggregate is charged for.
pub open spec fn acc_bytes(acc: AccModel) -> nat {
    match acc {
        AccModel::Min(Some(value)) => scalar_bytes(value),
        AccModel::Max(Some(value)) => scalar_bytes(value),
        _ => 16,
    }
}

fn keep_present(value: Option<Scalar>) -> (kept: Option<Scalar>)
    ensures
        model_of(kept) == present(model_of(value)),
{
    match value {
        Some(scalar) => if scalar.is_null() {
            None
        } else {
            Some(scalar)
        },
        None => None,
    }
}

impl Accumulator {
    pub fn new(function: AggregateFunction, input: Option<DataType>) -> (result: Result<
        Self,
        AggregateError,
    >)
        ensures
            match result {
                Ok(acc) => fresh(function, input) == Ok::<AccModel, AggregateError>(acc@),
                Err(error) => fresh(function, input) == Err::<AccModel, AggregateError>(error),
            },
    {
        match function {
            AggregateFunction::Count => Ok(Accumulator::Count(0)),
            AggregateFunction::Sum => match input {
                Some(data_type) => if data_type.is_signed() {
                    Ok(Accumulator::SumI64(None))
                } else if data_type.is_unsigned() {
                    Ok(Accumulator::SumU64(None))
                } else if data_type.is_floating() {
                    Ok(Accumulator::SumF64(None))
                } else {
                    Err(AggregateError::SumNeedsNumeric)
                },
                None => Err(AggregateError::SumNeedsNumeric),
            },
            AggregateFunction::Avg => Ok(Accumulator::Avg { sum: 0, count: 0 }),
            AggregateFunction::Min => Ok(Accumulator::Min(None)),
            AggregateFunction::Max => Ok(Accumulator::Max(None)),
        }
    }

    /// Takes one more value in. Floating-point sums are left to `plus`.
    pub fn update<F: Fn(u64, FloatCell) -> FloatSum>(
        &mut self,
        count_all: bool,
        value: Option<Scalar>,
        plus: &F,
    ) -> (result: Result<(), AggregateError>)
        requires
            forall|bits: u64, cell: FloatCell| #[trigger] plus.requires((bits, cell)),
        ensures
            exists|sum: FloatSum|
                sum_from(*plus, old(self)@, model_of(value), sum) && match result {
                    Ok(_) => #[trigger] accumulated(old(self)@, count_all, model_of(value), sum)
                        == Ok::<AccModel, AggregateError>(final(self)@),
                    Err(error) => accumulated(old(self)@, count_all, model_of(value), sum) == Err::<
                        AccModel,
                        AggregateError,
                    >(error) && final(self)@ == left_over(old(self)@, error, sum),
                },
            !(old(self)@ is Avg) && result is Err ==> final(self)@ == old(self)@,
    {
        let ghost before = self@;
        let ghost given = model_of(value);
        let ghost no_sum = FloatSum { bits: 0, finite: false };
        let kept = keep_present(value);
        match self {
            Accumulator::Count(count) => {
                assert(sum_from(*plus, before, given, no_sum));
                let ghost next = accumulated(before, count_all, given, no_sum);
                if count_all || kept.is_some() {
                    match (*count).checked_add(1) {
                        Some(more) => {
                            *count = more;
                        },
                        None => return Err(AggregateError::CountOverflow),
                    }
                }
            },
            Accumulator::SumI64(total) => {
                assert(sum_from(*plus, before, given, no_sum));
                let ghost next = accumulated(before, count_all, given, no_sum);
                match kept {
                    None => {},
                    Some(Scalar::I64(term)) => {
                        let so_far: i64 = match *total {
                            Some(sum) => sum,
                            None => 0,
                        };
                        match so_far.checked_add(term) {
                            Some(sum) => {
                                *total = Some(sum);
                            },
                            None => return Err(AggregateError::SignedOverflow),
                        }
                    },
                    Some(_) => return Err(AggregateError::SignedMismatch),
                }
            },
            Accumulator::SumU64(total) => {
                assert(sum_from(*plus, before, given, no_sum));
                let ghost next = accumulated(before, count_all, given, no_sum);
                match kept {
                    None => {},
                    Some(Scalar::U64(term)) => {
                        let so_far: u64 = match *total {
                            Some(sum) => sum,
                            None => 0,
                        };
                        match so_far.checked_add(term) {
                            Some(sum) => {
                                *total = Some(sum);
                            },
                            None => return Err(AggregateError::UnsignedOverflow),
                        }
                    },
                    Some(_) => return Err(AggregateError::UnsignedMismatch),
                }
            },
            Accumulator::SumF64(total) => {
                let ghost next = accumulated(before, count_all, given, no_sum);
                match kept {
                    None => {
                        assert(sum_from(*plus, before, given, no_sum));
                    },
                    Some(scalar) => {
                        match scalar.number() {
                            Some(cell) => {
                                let so_far: u64 = match *total {
                                    Some(bits) => bits,
                                    None => 0,
                                };
                                let sum: FloatSum = plus(so_far, cell);
                                assert(sum_from(*plus, before, given, sum));
                                let ghost stepped = accumulated(before, count_all, given, sum);
                                if !sum.finite {
                                    return Err(AggregateError::FloatOverflow);
                                }
                                *total = Some(sum.bits);
                            },
                            None => {
                                assert(sum_from(*plus, before, given, no_sum));
                                return Err(AggregateError::NotNumeric);
                            },
                        }
                    },
                }
            },
            Accumulator::Avg { sum: total, count } => {
                let ghost next = accumulated(before, count_all, given, no_sum);
                match kept {
                    None => {
                        assert(sum_from(*plus, before, given, no_sum));
                    },
                    Some(scalar) => {
                        match scalar.number() {
                            Some(cell) => {
                                let sum: FloatSum = plus(*total, cell);
                                assert(sum_from(*plus, before, given, sum));
                                let ghost stepped = accumulated(before, count_all, given, sum);
                                if !sum.finite {
                                    return Err(AggregateError::AvgOverflow);
                                }
                                *total = sum.bits;
                                match (*count).checked_add(1) {
                                    Some(more) => {
                                        *count = more;
                                    },
                                    None => return Err(AggregateError::AvgCountOverflow),
                                }
                            },
                            None => {
                                assert(sum_from(*plus, before, given, no_sum));
                                return Err(AggregateError::NotNumeric);
                            },
                        }
                    },
                }
            },
            Accumulator::Min(current) => {
                assert(sum_from(*plus, before, given, no_sum));
                let ghost next = accumulated(before, count_all, given, no_sum);
                if let Some(scalar) = kept {
                    let replace: bool = match current {
                        Some(least) => scalar_compare(&scalar, least) == Comparison::Less,
                        None => true,
                    };
                    if replace {
                        *current = Some(scalar);
                    }
                }
            },
            Accumulator::Max(current) => {
                assert(sum_from(*plus, before, given, no_sum));
                let ghost next = accumulated(before, count_all, given, no_sum);
                if let Some(scalar) = kept {
                    let replace: bool = match current {
                        Some(greatest) => scalar_compare(&scalar, greatest) == Comparison::Greater,
                        None => true,
                    };
                    if replace {
                        *current = Some(scalar);
                    }
                }
            },
        }
        Ok(())
    }

    /// The aggregate of the values seen so far; none where there is nothing to
    /// aggregate. The division of an average is left to `divide`, which takes
    /// the bits of the sum and the count.
    pub fn value<D: Fn(u64, u64) -> u64>(&self, divide: &D) -> (value: Option<Scalar>)
        requires
            forall|sum: u64, count: u64| #[trigger] divide.requires((sum, count)),
        ensures
            aggregate_value(*divide, self@, model_of(value)),
    {
        match self {
            Accumulator::Count(count) => Some(Scalar::U64(*count)),
            Accumulator::SumI64(sum) => match *sum {
                Some(sum) => Some(Scalar::I64(sum)),
                None => None,
            },
            Accumulator::SumU64(sum) => match *sum {
                Some(sum) => Some(Scalar::U64(sum)),
                None => None,
            },
            Accumulator::SumF64(sum) => match *sum {
                Some(bits) => Some(Scalar::F64(bits)),
                None => None,
            },
            Accumulator::Avg { sum, count } => {
                if *count > 0 {
                    Some(Scalar::F64(divide(*sum, *count)))
                } else {
                    None
                }
            },
            Accumulator::Min(value) => match value {
                Some(scalar) => Some(scalar.copy()),
                None => None,
            },
            Accumulator::Max(value) => match value {
                Some(scalar) => Some(scalar.copy()),
                None => None,
            },
        }
    }

    /// The memory that this aggregate is charged for, where it can be counted.
    pub fn bytes(&self) -> (bytes: Option<usize>)
        ensures
            match bytes {
                Some(n) => n == acc_bytes(self@),
                None => acc_bytes(self@) > usize::MAX,
            },
    {
        match self {
            Accumulator::Min(Some(value)) => value.bytes(),
            Accumulator::Max(Some(value)) => value.bytes(),
            _ => Some(16),
        }
    }
}

/// Whether `value` is the aggregate that `acc` stands for.
pub open spec fn aggregate_value<D: Fn(u64, u64) -> u64>(
    divide: D,
    acc: AccModel,
    value: Option<ScalarModel>,
) -> bool {
    match acc {
        AccModel::Count(count) => value == Some(ScalarModel::U64(count)),
        AccModel::SumI64(Some(sum)) => value == Some(ScalarModel::I64(sum)),
        AccModel::SumU64(Some(sum)) => value == Some(ScalarModel::U64(sum)),
        AccModel::SumF64(Some(bits)) => value == Some(ScalarModel::F64(bits)),
        AccModel::Avg { sum, count } => if count > 0 {
            match value {
                Some(ScalarModel::F64(bits)) => divide.ensures((sum, count), bits),
                _ => false,
            }
        } else {
            value is None
        },
        AccModel::Min(Some(scalar)) => value == Some(scalar),
        AccModel::Max(Some(scalar)) => value == Some(scalar),
        _ => value is None,
    }
}

/// The least or the greatest value after a series of values. Floating-point sums play
/// no part in it.
pub open spec fn extreme_after(acc: AccModel, values: Seq<ScalarModel>) -> Result<
    AccModel,
    AggregateError,
>
    decreases values.len(),
{
    if values.len() == 0 {
        Ok(acc)
    } else {
        match extreme_after(acc, values.drop_last()) {
            Ok(before) => accumulated(
                before,
                false,
                Some(values.last()),
                FloatSum { bits: 0, finite: false },
            ),
            Err(error) => Err(error),
        }
    }
}

/// Whether the values that are not null are all of one kind.
pub open spec fn of_one_kind(values: Seq<ScalarModel>) -> bool {
    forall|i: int, j: int|
        0 <= i < values.len() && 0 <= j < values.len() && #[trigger] values[i] != ScalarModel::Null
            && #[trigger] values[j] != ScalarModel::Null ==> same_kind(values[i], values[j])
}

/// Whether `found` is none where all values are null, and otherwise one of those that
/// are not, such that none of these stands to it like `beyond`.
pub open spec fn is_extreme(
    found: Option<ScalarModel>,
    values: Seq<ScalarModel>,
    beyond: Comparison,
) -> bool {
    match found {
        None => forall|i: int| 0 <= i < values.len() ==> #[trigger] values[i] == ScalarModel::Null,
        Some(extreme) => {
            &&& extreme != ScalarModel::Null
            &&& values.contains(extreme)
            &&& forall|i: int|
                0 <= i < values.len() && #[trigger] values[i] != ScalarModel::Null
                    ==> scalar_order(values[i], extreme) != beyond
        },
    }
}

proof fn lemma_extreme_step(
    before: Option<ScalarModel>,
    values: Seq<ScalarModel>,
    after: Option<ScalarModel>,
    beyond: Comparison,
)
    requires
        values.len() > 0,
        beyond == Comparison::Less || beyond == Comparison::Greater,
        of_one_kind(values),
        is_extreme(before, values.drop_last(), beyond),
        after == if values.last() == ScalarModel::Null {
            before
        } else if before is None || scalar_order(values.last(), before->0) == beyond {
            Some(values.last())
        } else {
            before
        },
    ensures
        is_extreme(after, values, beyond),
{
    let fewer = values.drop_last();
    let last = values.last();
    let end = values.len() - 1;
    assert(values[end] == last);
    if let Some(found) = after {
        if found == last && last != ScalarModel::Null && (before is None || scalar_order(
            last,
            before->0,
        ) == beyond) {
            assert(values.contains(found));
        } else {
            let at = choose|i: int| 0 <= i < fewer.len() && fewer[i] == found;
            assert(values[at] == found);
        }
        assert forall|i: int|
            0 <= i < values.len() && #[trigger] values[i] != ScalarModel::Null implies scalar_order(
            values[i],
            found,
        ) != beyond by {
            if i < end {
                assert(fewer[i] == values[i]);
                if before is Some && found != before->0 {
                    let at = choose|k: int| 0 <= k < fewer.len() && fewer[k] == before->0;
                    assert(values[at] == before->0);
                    assert(same_kind(values[i], last));
                    assert(same_kind(values[at], last));
                    lemma_scalar_order(values[i], found, before->0);
                }
            } else {
                lemma_scalar_order(last, last, last);
            }
        }
    } else {
        assert forall|i: int| 0 <= i < values.len() implies #[trigger] values[i]
            == ScalarModel::Null by {
            if i < end {
                assert(fewer[i] == values[i]);
            }
        }
    }
}

proof fn lemma_one_kind_of_fewer(values: Seq<ScalarModel>)
    requires
        values.len() > 0,
        of_one_kind(values),
    ensures
        of_one_kind(values.drop_last()),
{
    let fewer = values.drop_last();
    assert forall|i: int, j: int|
        0 <= i < fewer.len() && 0 <= j < fewer.len() && #[trigger] fewer[i] != ScalarModel::Null
            && #[trigger] fewer[j] != ScalarModel::Null implies same_kind(fewer[i], fewer[j]) by {
        assert(fewer[i] == values[i]);
        assert(fewer[j] == values[j]);
    }
}

/// MIN over a series of values of one kind never fails, and is the least of those that
/// are not null; it is missing where all are null.
pub proof fn law_min_is_the_least(values: Seq<ScalarModel>)
    requires
        of_one_kind(values),
    ensures
        extreme_after(AccModel::Min(None), values) matches Ok(AccModel::Min(least)) && is_extreme(
            least,
            values,
            Comparison::Less,
        ),
    decreases values.len(),
{
    if values.len() > 0 {
        lemma_one_kind_of_fewer(values);
        law_min_is_the_least(values.drop_last());
        if let Ok(AccModel::Min(before)) = extreme_after(AccModel::Min(None), values.drop_last()) {
            if let Ok(AccModel::Min(after)) = extreme_after(AccModel::Min(None), values) {
                lemma_extreme_step(before, values, after, Comparison::Less);
            }
        }
    }
}

/// MAX over a series of values of one kind never fails, and is the greatest of those
/// that are not null; it is missing where all are null.
pub proof fn law_max_is_the_greatest(values: Seq<ScalarModel>)
    requires
        of_one_kind(values),
    ensures
        extreme_after(AccModel::Max(None), values) matches Ok(AccModel::Max(greatest))
            && is_extreme(greatest, values, Comparison::Greater),
    decreases values.len(),
{
    if values.len() > 0 {
        lemma_one_kind_of_fewer(values);
        law_max_is_the_greatest(values.drop_last());
        if let Ok(AccModel::Max(before)) = extreme_after(AccModel::Max(None), values.drop_last()) {
            if let Ok(AccModel::Max(after)) = extreme_after(AccModel::Max(None), values) {
                lemma_extreme_step(before, values, after, Comparison::Greater);
            }
        }
    }
}

// ---------------------------------------------------------------------------
// Series of values
// ---------------------------------------------------------------------------

/// Whether an aggregate takes in one more value and becomes `after`.
pub open spec fn steps_to<F: Fn(u64, FloatCell) -> FloatSum>(
    plus: F,
    count_all: bool,
    before: AccModel,
    value: Option<ScalarModel>,
    after: AccModel,
) -> bool {
    exists|sum: FloatSum|
        sum_from(plus, before, value, sum) && #[trigger] accumulated(before, count_all, value, sum)
            == Ok::<AccModel, AggregateError>(after)
}

/// Whether an aggregate takes in a series of values, one after the other, and is each of
/// `accs` in turn.
pub open spec fn takes_in<F: Fn(u64, FloatCell) -> FloatSum>(
    plus: F,
    count_all: bool,
    accs: Seq<AccModel>,
    values: Seq<Option<ScalarModel>>,
) -> bool {
    accs.len() == values.len() + 1 && forall|i: int|
        0 <= i < values.len() ==> steps_to(
            plus,
            count_all,
            accs[i],
            #[trigger] values[i],
            accs[i + 1],
        )
}

/// The numbers that are there, in order: integers and floating-point numbers.
pub open spec fn numbers_given(values: Seq<Option<ScalarModel>>) -> Seq<FloatCell>
    decreases values.len(),
{
    if values.len() == 0 {
        Seq::empty()
    } else {
        let before = numbers_given(values.drop_last());
        match values.last() {
            Some(ScalarModel::F64(bits)) => before.push(FloatCell::Bits(bits)),
            Some(ScalarModel::I64(number)) => before.push(FloatCell::Signed(number)),
            Some(ScalarModel::U64(number)) => before.push(FloatCell::Unsigned(number)),
            _ => before,
        }
    }
}

/// How many values are neither missing nor null.
pub open spec fn values_given(values: Seq<Option<ScalarModel>>) -> nat
    decreases values.len(),
{
    if values.len() == 0 {
        0
    } else {
        values_given(values.drop_last()) + match values.last() {
            None => 0nat,
            Some(ScalarModel::Null) => 0nat,
            Some(_) => 1nat,
        }
    }
}

/// The integers that are there, added up.
pub open spec fn total_given(values: Seq<Option<ScalarModel>>) -> int
    decreases values.len(),
{
    if values.len() == 0 {
        0
    } else {
        total_given(values.drop_last()) + match values.last() {
            Some(ScalarModel::I64(number)) => number as int,
            Some(ScalarModel::U64(number)) => number as int,
            _ => 0,
        }
    }
}

/// Whether `sums` are what adding up the numbers gives after each of them: zero before the
/// first one, and then always the sum so far with the next number added.
pub open spec fn adds_up<F: Fn(u64, FloatCell) -> FloatSum>(
    plus: F,
    sums: Seq<u64>,
    numbers: Seq<FloatCell>,
) -> bool {
    &&& sums.len() == numbers.len() + 1
    &&& sums[0] == 0
    &&& forall|k: int|
        0 <= k < numbers.len() ==> plus.ensures(
            (sums[k], #[trigger] numbers[k]),
            FloatSum { bits: sums[k + 1], finite: true },
        )
}

proof fn lemma_takes_in_fewer<F: Fn(u64, FloatCell) -> FloatSum>(
    plus: F,
    count_all: bool,
    accs: Seq<AccModel>,
    values: Seq<Option<ScalarModel>>,
)
    requires
        values.len() > 0,
        takes_in(plus, count_all, accs, values),
    ensures
        takes_in(plus, count_all, accs.drop_last(), values.drop_last()),
        steps_to(
            plus,
            count_all,
            accs.drop_last().last(),
            values.last(),
            accs.last(),
        ),
{
    let fewer = accs.drop_last();
    assert(steps_to(
        plus,
        count_all,
        accs[values.len() - 1],
        values[values.len() - 1],
        accs[values.len() - 1 + 1],
    ));
    assert forall|i: int| 0 <= i < values.drop_last().len() implies steps_to(
        plus,
        count_all,
        fewer[i],
        #[trigger] values.drop_last()[i],
        fewer[i + 1],
    ) by {
        assert(values[i] == values.drop_last()[i]);
    }
}

proof fn lemma_adds_up_more<F: Fn(u64, FloatCell) -> FloatSum>(
    plus: F,
    sums: Seq<u64>,
    numbers: Seq<FloatCell>,
    number: FloatCell,
    bits: u64,
)
    requires
        adds_up(plus, sums, numbers),
        plus.ensures((sums.last(), number), FloatSum { bits, finite: true }),
    ensures
        adds_up(plus, sums.push(bits), numbers.push(number)),
{
    let more = sums.push(bits);
    assert forall|k: int| 0 <= k < numbers.len() + 1 implies plus.ensures(
        (more[k], #[trigger] numbers.push(number)[k]),
        FloatSum { bits: more[k + 1], finite: true },
    ) by {
        if k < numbers.len() {
            assert(numbers[k] == numbers.push(number)[k]);
        }
    }
}

/// SUM over floating-point values is the sum of all that are not null: starting from zero,
/// each is added to the sum so far. Without such a value there is no sum.
pub proof fn law_float_sum_adds_every_value<F: Fn(u64, FloatCell) -> FloatSum>(
    plus: F,
    count_all: bool,
    accs: Seq<AccModel>,
    values: Seq<Option<ScalarModel>>,
) -> (sums: Seq<u64>)
    requires
        takes_in(plus, count_all, accs, values),
        accs[0] == AccModel::SumF64(None),
    ensures
        adds_up(plus, sums, numbers_given(values)),
        accs.last() == AccModel::SumF64(
            if numbers_given(values).len() == 0 {
                None
            } else {
                Some(sums.last())
            },
        ),
    decreases values.len(),
{
    if values.len() == 0 {
        assert(adds_up(plus, seq![0u64], numbers_given(values)));
        seq![0u64]
    } else {
        lemma_takes_in_fewer(plus, count_all, accs, values);
        let fewer = values.drop_last();
        let sums = law_float_sum_adds_every_value(plus, count_all, accs.drop_last(), fewer);
        let before = accs.drop_last().last();
        let sum = choose|sum: FloatSum|
            sum_from(plus, before, values.last(), sum) && #[trigger] accumulated(
                before,
                count_all,
                values.last(),
                sum,
            ) == Ok::<AccModel, AggregateError>(accs.last());
        match values.last() {
            Some(ScalarModel::F64(bits)) => {
                lemma_adds_up_more(
                    plus,
                    sums,
                    numbers_given(fewer),
                    FloatCell::Bits(bits),
                    sum.bits,
                );
                sums.push(sum.bits)
            },
            Some(ScalarModel::I64(number)) => {
                lemma_adds_up_more(
                    plus,
                    sums,
                    numbers_given(fewer),
                    FloatCell::Signed(number),
                    sum.bits,
                );
                sums.push(sum.bits)
            },
            Some(ScalarModel::U64(number)) => {
                lemma_adds_up_more(
                    plus,
                    sums,
                    numbers_given(fewer),
                    FloatCell::Unsigned(number),
                    sum.bits,
                );
                sums.push(sum.bits)
            },
            _ => sums,
        }
    }
}

/// AVG holds the sum of all values that are not null, each added to the sum so far from
/// zero on, and how many they are.
pub proof fn law_average_adds_and_counts_every_value<F: Fn(u64, FloatCell) -> FloatSum>(
    plus: F,
    count_all: bool,
    accs: Seq<AccModel>,
    values: Seq<Option<ScalarModel>>,
) -> (sums: Seq<u64>)
    requires
        takes_in(plus, count_all, accs, values),
        accs[0] == (AccModel::Avg { sum: 0, count: 0 }),
    ensures
        adds_up(plus, sums, numbers_given(values)),
        accs.last() matches AccModel::Avg { sum, count } && sum == sums.last() && count
            == numbers_given(values).len() && count == values_given(values),
    decreases values.len(),
{
    if values.len() == 0 {
        assert(adds_up(plus, seq![0u64], numbers_given(values)));
        seq![0u64]
    } else {
        lemma_takes_in_fewer(plus, count_all, accs, values);
        let fewer = values.drop_last();
        let sums = law_average_adds_and_counts_every_value(
            plus,
            count_all,
            accs.drop_last(),
            fewer,
        );
        let before = accs.drop_last().last();
        let sum = choose|sum: FloatSum|
            sum_from(plus, before, values.last(), sum) && #[trigger] accumulated(
                before,
                count_all,
                values.last(),
                sum,
            ) == Ok::<AccModel, AggregateError>(accs.last());
        match values.last() {
            Some(ScalarModel::F64(bits)) => {
                lemma_adds_up_more(
                    plus,
                    sums,
                    numbers_given(fewer),
                    FloatCell::Bits(bits),
                    sum.bits,
                );
                sums.push(sum.bits)
            },
            Some(ScalarModel::I64(number)) => {
                lemma_adds_up_more(
                    plus,
                    sums,
                    numbers_given(fewer),
                    FloatCell::Signed(number),
                    sum.bits,
                );
                sums.push(sum.bits)
            },
            Some(ScalarModel::U64(number)) => {
                lemma_adds_up_more(
                    plus,
                    sums,
                    numbers_given(fewer),
                    FloatCell::Unsigned(number),
                    sum.bits,
                );
                sums.push(sum.bits)
            },
            _ => sums,
        }
    }
}

/// COUNT counts all rows where rows are counted, and otherwise the values that are not
/// null.
pub proof fn law_count_counts_every_value<F: Fn(u64, FloatCell) -> FloatSum>(
    plus: F,
    count_all: bool,
    accs: Seq<AccModel>,
    values: Seq<Option<ScalarModel>>,
)
    requires
        takes_in(plus, count_all, accs, values),
        accs[0] == AccModel::Count(0),
    ensures
        accs.last() matches AccModel::Count(count) && count == if count_all {
            values.len()
        } else {
            values_given(values)
        },
    decreases values.len(),
{
    if values.len() > 0 {
        lemma_takes_in_fewer(plus, count_all, accs, values);
        law_count_counts_every_value(plus, count_all, accs.drop_last(), values.drop_last());
    }
}

/// SUM over integers is the sum of all that are not null, exactly. Without such a value
/// there is no sum.
pub proof fn law_integer_sum_is_the_total<F: Fn(u64, FloatCell) -> FloatSum>(
    plus: F,
    count_all: bool,
    accs: Seq<AccModel>,
    values: Seq<Option<ScalarModel>>,
)
    requires
        takes_in(plus, count_all, accs, values),
        accs[0] == AccModel::SumI64(None) || accs[0] == AccModel::SumU64(None),
    ensures
        match accs.last() {
            AccModel::SumI64(sum) => accs[0] is SumI64 && (sum is None <==> values_given(values)
                == 0) && (sum is Some ==> sum->0 == total_given(values)),
            AccModel::SumU64(sum) => accs[0] is SumU64 && (sum is None <==> values_given(values)
                == 0) && (sum is Some ==> sum->0 == total_given(values)),
            _ => false,
        },
        values_given(values) == 0 ==> total_given(values) == 0,
    decreases values.len(),
{
    if values.len() > 0 {
        lemma_takes_in_fewer(plus, count_all, accs, values);
        law_integer_sum_is_the_total(plus, count_all, accs.drop_last(), values.drop_last());
        assert(accs.drop_last()[0] == accs[0]);
    }
}

/// An aggregate fails only where it has to: a sum of integers where it leaves the range of
/// its type, a floating-point sum where it is no longer finite, a count at the greatest
/// number, and a sum or an average over values that are no numbers. The least and the
/// greatest value are always found, and a null, or a missing value, never fails.
pub proof fn law_aggregates_fail_only_where_they_must(
    acc: AccModel,
    count_all: bool,
    value: Option<ScalarModel>,
    sum: FloatSum,
)
    ensures
        accumulated(acc, count_all, value, sum) is Err <==> match (acc, value) {
            (AccModel::Count(count), _) => count == u64::MAX && (count_all || (value is Some
                && !(value->0 is Null))),
            (_, None) => false,
            (_, Some(ScalarModel::Null)) => false,
            (AccModel::SumI64(so_far), Some(ScalarModel::I64(number))) => {
                let total = number + match so_far {
                    Some(total) => total as int,
                    None => 0,
                };
                total < i64::MIN || total > i64::MAX
            },
            (AccModel::SumI64(_), Some(_)) => true,
            (AccModel::SumU64(so_far), Some(ScalarModel::U64(number))) => number + match so_far {
                Some(total) => total as int,
                None => 0,
            } > u64::MAX,
            (AccModel::SumU64(_), Some(_)) => true,
            (AccModel::SumF64(_), Some(scalar)) => !(scalar is F64 || scalar is I64 || scalar is U64)
                || !sum.finite,
            (AccModel::Avg { count, .. }, Some(scalar)) => !(scalar is F64 || scalar is I64
                || scalar is U64) || !sum.finite || count == u64::MAX,
            (AccModel::Min(_), _) => false,
            (AccModel::Max(_), _) => false,
        },
{
}

/// What an aggregate over no value starts from: nothing is counted, nothing is added, and
/// nothing was found. A sum is kept in the type of what it adds.
pub proof fn law_aggregates_start_from_nothing(data_type: DataType)
    ensures
        fresh(AggregateFunction::Count, Some(data_type)) == Ok::<AccModel, AggregateError>(
            AccModel::Count(0),
        ),
        fresh(AggregateFunction::Count, None) == Ok::<AccModel, AggregateError>(AccModel::Count(0)),
        fresh(AggregateFunction::Avg, Some(data_type)) == Ok::<AccModel, AggregateError>(
            AccModel::Avg { sum: 0, count: 0 },
        ),
        fresh(AggregateFunction::Min, Some(data_type)) == Ok::<AccModel, AggregateError>(
            AccModel::Min(None),
        ),
        fresh(AggregateFunction::Max, Some(data_type)) == Ok::<AccModel, AggregateError>(
            AccModel::Max(None),
        ),
        data_type is Int8 || data_type is Int16 || data_type is Int32 || data_type is Int64
            <==> fresh(AggregateFunction::Sum, Some(data_type)) == Ok::<AccModel, AggregateError>(
            AccModel::SumI64(None),
        ),
        data_type is UInt8 || data_type is UInt16 || data_type is UInt32 || data_type is UInt64
            <==> fresh(AggregateFunction::Sum, Some(data_type)) == Ok::<AccModel, AggregateError>(
            AccModel::SumU64(None),
        ),
        data_type is Float32 || data_type is Float64 ==> fresh(
            AggregateFunction::Sum,
            Some(data_type),
        ) == Ok::<AccModel, AggregateError>(AccModel::SumF64(None)),
{
}

/// What is reported of an aggregate is what it holds; nothing where it has met no value.
/// An average is the sum divided by how many values there were.
pub proof fn law_reported_value_is_what_was_found<D: Fn(u64, u64) -> u64>(
    divide: D,
    acc: AccModel,
    value: Option<ScalarModel>,
)
    requires
        aggregate_value(divide, acc, value),
    ensures
        match acc {
            AccModel::Count(count) => value == Some(ScalarModel::U64(count)),
            AccModel::SumI64(sum) => (value is None <==> sum is None) && (sum is Some ==> value
                == Some(ScalarModel::I64(sum->0))),
            AccModel::SumU64(sum) => (value is None <==> sum is None) && (sum is Some ==> value
                == Some(ScalarModel::U64(sum->0))),
            AccModel::SumF64(sum) => (value is None <==> sum is None) && (sum is Some ==> value
                == Some(ScalarModel::F64(sum->0))),
            AccModel::Min(found) => value == found,
            AccModel::Max(found) => value == found,
            AccModel::Avg { sum, count } => (value is None <==> count == 0) && (count > 0
                ==> value is Some && value->0 is F64 && divide.ensures(
                (sum, count),
                value->0->F64_0,
            )),
        },
{
}

} // verus!
