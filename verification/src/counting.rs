//! Counting rows without reading them gives what reading them gives.

use crate::accumulate::{AccModel, AggregateError, FloatSum};
use crate::aggregate::{AggregateExpr, GroupBudget};
use crate::collector::counts_added;
use crate::groups::{
    accs_after, accs_bytes, group_bytes, group_index, groups_bytes, row_follows, row_outcome,
    row_taken, rows_outcome, with_group, GroupModel, RowRead,
};
use crate::scalar::{FloatCell, ScalarModel};
use vstd::prelude::*;

verus! {

/// Whether all aggregates are counts.
pub open spec fn all_counts(accs: Seq<AccModel>) -> bool {
    forall|i: int| 0 <= i < accs.len() ==> (#[trigger] accs[i]) is Count
}

/// Whether a row says nothing but that it is there, in a dataset that is not
/// grouped.
pub open spec fn bare_row(row: RowRead, expressions: Seq<AggregateExpr>) -> bool {
    &&& row.key == Ok::<ScalarModel, AggregateError>(ScalarModel::Null)
    &&& row.values.len() == expressions.len()
    &&& forall|i: int| 0 <= i < row.values.len() ==> (#[trigger] row.values[i]) is Ok
}

/// Whether the first `n` counts can grow by `rows`.
spec fn can_grow(accs: Seq<AccModel>, rows: int, n: nat) -> bool {
    forall|i: int| 0 <= i < n ==> (#[trigger] accs[i])->Count_0 + rows <= u64::MAX
}

/// The counts, the first `n` of them grown by `rows`.
spec fn grown(accs: Seq<AccModel>, rows: int, n: nat) -> Seq<AccModel> {
    Seq::new(
        accs.len(),
        |i: int|
            if i < n {
                AccModel::Count((accs[i]->Count_0 + rows) as u64)
            } else {
                accs[i]
            },
    )
}

proof fn lemma_counts_added(accs: Seq<AccModel>, rows: u64, n: nat)
    requires
        all_counts(accs),
        n <= accs.len(),
    ensures
        counts_added(accs, rows, n) == if can_grow(accs, rows as int, n) {
            Ok::<Seq<AccModel>, AggregateError>(grown(accs, rows as int, n))
        } else {
            Err(AggregateError::CountOverflow)
        },
    decreases n,
{
    if n == 0 {
        assert(grown(accs, rows as int, 0) =~= accs);
    } else {
        let before = (n - 1) as nat;
        lemma_counts_added(accs, rows, before);
        assert(accs[n - 1] is Count);
        if can_grow(accs, rows as int, before) && accs[n - 1]->Count_0 + rows <= u64::MAX {
            assert(grown(accs, rows as int, n) =~= grown(accs, rows as int, before).update(
                n - 1,
                AccModel::Count((accs[n - 1]->Count_0 + rows) as u64),
            ));
        }
    }
}

proof fn lemma_one_row(
    accs: Seq<AccModel>,
    expressions: Seq<AggregateExpr>,
    row: RowRead,
    sums: Seq<FloatSum>,
    n: nat,
)
    requires
        all_counts(accs),
        accs.len() == expressions.len(),
        n <= accs.len(),
        forall|i: int| 0 <= i < expressions.len() ==> (#[trigger] expressions[i]).input() is None,
        bare_row(row, expressions),
    ensures
        accs_after(accs, expressions, row.values, sums, n) == if can_grow(accs, 1, n) {
            Ok::<Seq<AccModel>, AggregateError>(grown(accs, 1, n))
        } else {
            Err(AggregateError::CountOverflow)
        },
    decreases n,
{
    if n == 0 {
        assert(grown(accs, 1, 0) =~= accs);
    } else {
        let before = (n - 1) as nat;
        lemma_one_row(accs, expressions, row, sums, before);
        assert(accs[n - 1] is Count);
        assert(expressions[n - 1].input() is None);
        assert(row.values[n - 1] is Ok);
        if can_grow(accs, 1, before) && accs[n - 1]->Count_0 + 1 <= u64::MAX {
            assert(grown(accs, 1, n) =~= grown(accs, 1, before).update(
                n - 1,
                AccModel::Count((accs[n - 1]->Count_0 + 1) as u64),
            ));
        }
    }
}

proof fn lemma_counts_bytes(a: Seq<AccModel>, b: Seq<AccModel>)
    requires
        all_counts(a),
        all_counts(b),
        a.len() == b.len(),
    ensures
        accs_bytes(a) == accs_bytes(b),
    decreases a.len(),
{
    if a.len() > 0 {
        assert(all_counts(a.drop_last()));
        assert(all_counts(b.drop_last()));
        lemma_counts_bytes(a.drop_last(), b.drop_last());
        assert(a[a.len() - 1] is Count);
        assert(b[b.len() - 1] is Count);
    }
}

proof fn lemma_one_group(group: GroupModel)
    ensures
        groups_bytes(seq![group]) == group_bytes(group),
        group_index(seq![group], group.key) == Some(0int),
{
    reveal_with_fuel(groups_bytes, 2);
    reveal_with_fuel(group_index, 2);
    assert(seq![group].drop_last() =~= Seq::<GroupModel>::empty());
}

/// What counting the rows of a dataset that is not grouped one by one leads to.
proof fn lemma_counted_singly<F: Fn(u64, FloatCell) -> FloatSum>(
    plus: F,
    accs: Seq<AccModel>,
    rows: Seq<RowRead>,
    expressions: Seq<AggregateExpr>,
    initial: Seq<AccModel>,
    budget: GroupBudget,
    outcome: Result<Seq<GroupModel>, AggregateError>,
)
    requires
        all_counts(accs),
        accs.len() == expressions.len(),
        forall|i: int| 0 <= i < expressions.len() ==> (#[trigger] expressions[i]).input() is None,
        forall|k: int| 0 <= k < rows.len() ==> bare_row(#[trigger] rows[k], expressions),
        group_bytes(GroupModel { key: ScalarModel::Null, accs }) <= budget.bytes_bound(),
        rows_outcome(
            plus,
            seq![GroupModel { key: ScalarModel::Null, accs }],
            rows,
            expressions,
            initial,
            budget,
            outcome,
        ),
    ensures
        outcome == if can_grow(accs, rows.len() as int, accs.len()) {
            Ok::<Seq<GroupModel>, AggregateError>(
                seq![
                    GroupModel {
                        key: ScalarModel::Null,
                        accs: grown(accs, rows.len() as int, accs.len()),
                    },
                ],
            )
        } else {
            Err(AggregateError::CountOverflow)
        },
    decreases rows.len(),
{
    let start = seq![GroupModel { key: ScalarModel::Null, accs }];
    let n = accs.len();
    if rows.len() == 0 {
        assert(grown(accs, 0, n) =~= accs);
        assert forall|i: int| 0 <= i < n implies (#[trigger] accs[i])->Count_0 + 0 <= u64::MAX by {
            assert(accs[i] is Count);
        }
    } else {
        let before = rows.drop_last();
        let count = before.len() as int;
        let middle = choose|middle: Result<Seq<GroupModel>, AggregateError>|
            rows_outcome(plus, start, before, expressions, initial, budget, middle)
                && #[trigger] row_follows(
                plus,
                middle,
                rows.last(),
                expressions,
                initial,
                budget,
                outcome,
            );
        assert forall|k: int| 0 <= k < before.len() implies bare_row(
            #[trigger] before[k],
            expressions,
        ) by {
            assert(bare_row(rows[k], expressions));
        }
        lemma_counted_singly(plus, accs, before, expressions, initial, budget, middle);
        assert(bare_row(rows[rows.len() - 1], expressions));
        if can_grow(accs, count, n) {
            let reached = grown(accs, count, n);
            let group = GroupModel { key: ScalarModel::Null, accs: reached };
            let groups = seq![group];
            assert(middle == Ok::<Seq<GroupModel>, AggregateError>(groups));
            let sums = choose|sums: Seq<FloatSum>|
                #[trigger] row_taken(groups, rows.last(), expressions, initial, budget, sums)
                    == outcome;
            assert(row_outcome(plus, groups, rows.last(), expressions, initial, budget, outcome));
            assert(row_taken(groups, rows.last(), expressions, initial, budget, sums) == outcome);
            lemma_one_group(group);
            assert(with_group(groups, ScalarModel::Null, initial, budget) == Ok::<
                (Seq<GroupModel>, int),
                AggregateError,
            >((groups, 0int)));
            lemma_one_row(reached, expressions, rows.last(), sums, n);
            if can_grow(reached, 1, n) {
                let next = grown(reached, 1, n);
                let last = GroupModel { key: ScalarModel::Null, accs: next };
                assert(groups.update(0, last) =~= seq![last]);
                lemma_counts_bytes(accs, next);
                lemma_one_group(last);
                assert(next =~= grown(accs, count + 1, n));
                assert forall|i: int| 0 <= i < n implies (#[trigger] accs[i])->Count_0 + (count + 1)
                    <= u64::MAX by {
                    assert(reached[i]->Count_0 + 1 <= u64::MAX);
                }
            } else {
                let i = choose|i: int|
                    0 <= i < n && (#[trigger] reached[i])->Count_0 + 1 > u64::MAX;
                assert(accs[i]->Count_0 + (count + 1) > u64::MAX);
            }
        } else {
            let i = choose|i: int| 0 <= i < n && (#[trigger] accs[i])->Count_0 + count > u64::MAX;
            assert(accs[i]->Count_0 + (count + 1) > u64::MAX);
        }
    }
}

/// To add the number of rows to the counts of a dataset that is not grouped has the
/// outcome that taking in the rows one by one has.
pub proof fn law_counting_at_once_counts_each_row<F: Fn(u64, FloatCell) -> FloatSum>(
    plus: F,
    accs: Seq<AccModel>,
    rows: Seq<RowRead>,
    expressions: Seq<AggregateExpr>,
    initial: Seq<AccModel>,
    budget: GroupBudget,
    outcome: Result<Seq<GroupModel>, AggregateError>,
)
    requires
        all_counts(accs),
        accs.len() == expressions.len(),
        forall|i: int| 0 <= i < expressions.len() ==> (#[trigger] expressions[i]).input() is None,
        rows.len() <= u64::MAX,
        forall|k: int| 0 <= k < rows.len() ==> bare_row(#[trigger] rows[k], expressions),
        group_bytes(GroupModel { key: ScalarModel::Null, accs }) <= budget.bytes_bound(),
        rows_outcome(
            plus,
            seq![GroupModel { key: ScalarModel::Null, accs }],
            rows,
            expressions,
            initial,
            budget,
            outcome,
        ),
    ensures
        match counts_added(accs, rows.len() as u64, expressions.len()) {
            Ok(counted) => outcome == Ok::<Seq<GroupModel>, AggregateError>(
                seq![GroupModel { key: ScalarModel::Null, accs: counted }],
            ),
            Err(error) => outcome == Err::<Seq<GroupModel>, AggregateError>(error),
        },
{
    lemma_counted_singly(plus, accs, rows, expressions, initial, budget, outcome);
    lemma_counts_added(accs, rows.len() as u64, accs.len());
}

} // verus!
