//! Which columns a read returns, and in which order.

use crate::batch::{
    batch_rows, batch_width, column_count, makes_batch, project_columns, project_row, project_rows,
    row_count, Batch, BatchError,
};
use crate::reads::ReadError;
use crate::seqs::{first_index, lemma_first_index, lemma_first_index_is};
use vstd::prelude::*;

verus! {

/// Why a list of columns is no projection.
#[derive(Clone, Copy, Debug, PartialEq, Eq, Structural)]
pub enum ProjectionError {
    OutOfRange(usize),
    Duplicate(usize),
}

/// An ordered choice of distinct columns.
#[derive(Debug, PartialEq, Eq, Hash)]
pub struct Projection {
    columns: Vec<usize>,
}

impl View for Projection {
    type V = Seq<usize>;

    closed spec fn view(&self) -> Seq<usize> {
        self.columns@
    }
}

/// Every column below `count`, in order.
pub open spec fn all_columns(count: nat) -> Seq<usize> {
    Seq::new(count, |i: int| i as usize)
}

/// The first thing wrong with `columns` as a choice among `count` columns.
pub open spec fn projection_fault(columns: Seq<usize>, count: nat) -> Option<ProjectionError>
    decreases columns.len(),
{
    if columns.len() == 0 {
        None
    } else if let Some(fault) = projection_fault(columns.drop_last(), count) {
        Some(fault)
    } else if columns.last() >= count {
        Some(ProjectionError::OutOfRange(columns.last()))
    } else if columns.drop_last().contains(columns.last()) {
        Some(ProjectionError::Duplicate(columns.last()))
    } else {
        None
    }
}

/// Whether the values strictly increase.
pub open spec fn strictly_increasing(values: Seq<usize>) -> bool {
    forall|i: int, j: int| 0 <= i < j < values.len() ==> values[i] < values[j]
}

/// Whether `sorted` holds the columns of `columns`, each once and in ascending order.
pub open spec fn is_stored_order(sorted: Seq<usize>, columns: Seq<usize>) -> bool {
    strictly_increasing(sorted) && forall|column: usize|
        #![auto]
        sorted.contains(column) <==> columns.contains(column)
}

/// The columns of `columns`, each once and in ascending order.
pub open spec fn stored_order(columns: Seq<usize>) -> Seq<usize> {
    choose|sorted: Seq<usize>| is_stored_order(sorted, columns)
}

/// Where each column stands among the same columns in the order in which a file stores
/// them.
pub open spec fn decoded_places(columns: Seq<usize>) -> Seq<usize> {
    columns.map_values(|column: usize| first_index(stored_order(columns), column)->0 as usize)
}

/// Whether `result` is a batch with columns that were decoded in the order of the file,
/// put into the order that was asked for.
pub open spec fn arranged(
    result: Result<Batch, ReadError>,
    batch: Batch,
    columns: Seq<usize>,
) -> bool {
    if batch_width(batch) != stored_order(columns).len() {
        result matches Err(error) && error is Rows
    } else {
        match result {
            Ok(part) => {
                &&& makes_batch(batch, decoded_places(columns))
                &&& batch_rows(part) == project_rows(batch_rows(batch), decoded_places(columns))
                &&& batch_width(part) == columns.len()
            },
            Err(ReadError::Batch(BatchError::Refused(_))) => !makes_batch(
                batch,
                decoded_places(columns),
            ),
            Err(_) => false,
        }
    }
}

/// A list of columns without a fault names distinct columns within range.
pub proof fn law_projection_is_injective(columns: Seq<usize>, count: nat)
    ensures
        projection_fault(columns, count) is None <==> (columns.no_duplicates() && forall|i: int|
            0 <= i < columns.len() ==> columns[i] < count),
    decreases columns.len(),
{
    if columns.len() > 0 {
        let init = columns.drop_last();
        law_projection_is_injective(init, count);
        if projection_fault(columns, count) is None {
            assert forall|i: int, j: int|
                0 <= i < columns.len() && 0 <= j < columns.len() && i != j implies columns[i]
                != columns[j] by {
                if i < init.len() && j < init.len() {
                    assert(init[i] != init[j]);
                } else if i < init.len() {
                    assert(init.contains(init[i]));
                } else {
                    assert(init.contains(init[j]));
                }
            }
            assert forall|i: int| 0 <= i < columns.len() implies columns[i] < count by {
                if i < init.len() {
                    assert(init[i] < count);
                }
            }
        }
        if columns.no_duplicates() && forall|i: int|
            0 <= i < columns.len() ==> columns[i] < count {
            assert forall|i: int, j: int|
                0 <= i < init.len() && 0 <= j < init.len() && i != j implies init[i] != init[j] by {
                assert(columns[i] != columns[j]);
            }
            assert forall|i: int| 0 <= i < init.len() implies init[i] < count by {
                assert(columns[i] < count);
            }
            if init.contains(columns.last()) {
                let k = choose|k: int| 0 <= k < init.len() && init[k] == columns.last();
                assert(columns[k] != columns[columns.len() - 1]);
            }
        }
    }
}

proof fn lemma_fault_prefix(columns: Seq<usize>, count: nat, k: int)
    requires
        0 <= k <= columns.len(),
        projection_fault(columns.take(k), count) is Some,
    ensures
        projection_fault(columns, count) == projection_fault(columns.take(k), count),
    decreases columns.len() - k,
{
    if k < columns.len() {
        assert(columns.take(k + 1).drop_last() =~= columns.take(k));
        lemma_fault_prefix(columns, count, k + 1);
    } else {
        assert(columns.take(k) =~= columns);
    }
}

/// Whether `column` stands in `columns`.
pub fn contains_column(columns: &Vec<usize>, column: usize) -> (yes: bool)
    ensures
        yes == columns@.contains(column),
{
    position_in(columns, column).is_some()
}

/// The first position of `column` in `columns`.
pub fn position_in(columns: &Vec<usize>, column: usize) -> (found: Option<usize>)
    ensures
        match found {
            Some(index) => first_index(columns@, column) == Some(index as int) && index
                < columns@.len() && columns@[index as int] == column,
            None => first_index(columns@, column) is None && !columns@.contains(column),
        },
        found is Some <==> columns@.contains(column),
{
    let mut index: usize = 0;
    while index < columns.len()
        invariant
            index <= columns@.len(),
            forall|k: int| 0 <= k < index ==> columns@[k] != column,
        decreases columns@.len() - index,
    {
        if columns[index] == column {
            proof {
                lemma_first_index_is(columns@, column, index as int);
            }
            return Some(index);
        }
        index = index + 1;
    }
    proof {
        lemma_first_index(columns@, column);
    }
    None
}

impl Projection {
    /// Every column of a dataset with `column_count` columns.
    pub fn all(column_count: usize) -> (projection: Self)
        ensures
            projection@ == all_columns(column_count as nat),
    {
        let mut columns: Vec<usize> = Vec::new();
        let mut i: usize = 0;
        while i < column_count
            invariant
                i <= column_count,
                columns@ == all_columns(i as nat),
            decreases column_count - i,
        {
            columns.push(i);
            i = i + 1;
            assert(columns@ =~= all_columns(i as nat));
        }
        Projection { columns }
    }

    /// The given columns in the given order; none given means all of them.
    pub fn columns(columns: Vec<usize>, column_count: usize) -> (result: Result<
        Self,
        ProjectionError,
    >)
        ensures
            match result {
                Ok(projection) => {
                    &&& projection_fault(columns@, column_count as nat) is None
                    &&& projection@ == if columns@.len() == 0 {
                        all_columns(column_count as nat)
                    } else {
                        columns@
                    }
                },
                Err(error) => projection_fault(columns@, column_count as nat) == Some(error),
            },
    {
        if columns.len() == 0 {
            return Ok(Self::all(column_count));
        }
        let mut position: usize = 0;
        assert(columns@.take(0) =~= Seq::<usize>::empty());
        while position < columns.len()
            invariant
                position <= columns@.len(),
                projection_fault(columns@.take(position as int), column_count as nat) is None,
            decreases columns@.len() - position,
        {
            let column: usize = columns[position];
            let ghost next = columns@.take(position + 1);
            assert(next.drop_last() =~= columns@.take(position as int));
            assert(next.last() == column);
            if column >= column_count {
                proof {
                    lemma_fault_prefix(columns@, column_count as nat, position + 1);
                }
                return Err(ProjectionError::OutOfRange(column));
            }
            let mut earlier: usize = 0;
            while earlier < position
                invariant
                    earlier <= position < columns@.len(),
                    column == columns@[position as int],
                    column < column_count,
                    next == columns@.take(position + 1),
                    next.drop_last() == columns@.take(position as int),
                    next.last() == column,
                    projection_fault(columns@.take(position as int), column_count as nat) is None,
                    forall|k: int| 0 <= k < earlier ==> columns@[k] != column,
                decreases position - earlier,
            {
                if columns[earlier] == column {
                    assert(next.drop_last()[earlier as int] == column);
                    proof {
                        lemma_fault_prefix(columns@, column_count as nat, position + 1);
                    }
                    return Err(ProjectionError::Duplicate(column));
                }
                earlier = earlier + 1;
            }
            position = position + 1;
        }
        assert(columns@.take(position as int) =~= columns@);
        Ok(Projection { columns })
    }

    pub fn as_slice(&self) -> (columns: &[usize])
        ensures
            columns@ == self@,
    {
        self.columns.as_slice()
    }

    /// A copy of this projection.
    pub fn copy(&self) -> (copy: Self)
        ensures
            copy@ == self@,
    {
        Projection { columns: self.to_vec() }
    }

    /// The chosen columns as an owned list.
    pub fn to_vec(&self) -> (columns: Vec<usize>)
        ensures
            columns@ == self@,
    {
        let mut columns: Vec<usize> = Vec::new();
        let mut i: usize = 0;
        while i < self.columns.len()
            invariant
                i <= self.columns@.len(),
                columns@ == self.columns@.take(i as int),
            decreases self.columns@.len() - i,
        {
            columns.push(self.columns[i]);
            i = i + 1;
            assert(columns@ =~= self.columns@.take(i as int));
        }
        assert(columns@ =~= self.columns@);
        columns
    }

    /// Whether both choose the same columns in the same order.
    pub fn same_as(&self, other: &Self) -> (same: bool)
        ensures
            same == (self@ == other@),
    {
        if self.columns.len() != other.columns.len() {
            return false;
        }
        let mut i: usize = 0;
        while i < self.columns.len()
            invariant
                self.columns@.len() == other.columns@.len(),
                i <= self.columns@.len(),
                forall|k: int| 0 <= k < i ==> self.columns@[k] == other.columns@[k],
            decreases self.columns@.len() - i,
        {
            if self.columns[i] != other.columns[i] {
                return false;
            }
            i = i + 1;
        }
        assert(self.columns@ =~= other.columns@);
        true
    }

    /// The chosen columns in the order in which a file stores them, each once.
    pub fn parquet_columns(&self) -> (sorted: Vec<usize>)
        ensures
            is_stored_order(sorted@, self@),
            sorted@ == stored_order(self@),
    {
        let mut sorted: Vec<usize> = Vec::new();
        let mut i: usize = 0;
        while i < self.columns.len()
            invariant
                i <= self.columns@.len(),
                strictly_increasing(sorted@),
                forall|column: usize|
                    sorted@.contains(column) <==> self.columns@.take(i as int).contains(column),
            decreases self.columns@.len() - i,
        {
            let column: usize = self.columns[i];
            let ghost before = sorted@;
            insert_sorted(&mut sorted, column);
            proof {
                let prefix = self.columns@.take(i as int);
                let longer = self.columns@.take(i + 1);
                assert(longer =~= prefix.push(column));
                assert forall|c: usize| sorted@.contains(c) <==> longer.contains(c) by {
                    if longer.contains(c) {
                        let k = choose|k: int| 0 <= k < longer.len() && longer[k] == c;
                        if k < prefix.len() {
                            assert(prefix[k] == c);
                        }
                    }
                    if prefix.contains(c) {
                        let k = choose|k: int| 0 <= k < prefix.len() && prefix[k] == c;
                        assert(longer[k] == c);
                    }
                    assert(longer[i as int] == column);
                }
            }
            i = i + 1;
        }
        assert(self.columns@.take(i as int) =~= self.columns@);
        proof {
            assert(is_stored_order(sorted@, self@));
            lemma_sorted_unique(stored_order(self@), sorted@);
        }
        sorted
    }

    /// Where each chosen column stands among [`Projection::parquet_columns`].
    pub fn decoded_positions(&self) -> (positions: Vec<usize>)
        ensures
            positions@.len() == self@.len(),
            forall|i: int|
                0 <= i < self@.len() ==> #[trigger] positions@[i] < stored_order(self@).len()
                    && stored_order(self@)[positions@[i] as int] == self@[i],
            positions@ == decoded_places(self@),
    {
        let sorted = self.parquet_columns();
        let mut positions: Vec<usize> = Vec::new();
        let mut i: usize = 0;
        while i < self.columns.len()
            invariant
                i <= self.columns@.len(),
                positions@.len() == i,
                is_stored_order(sorted@, self@),
                sorted@ == stored_order(self@),
                forall|k: int|
                    0 <= k < i ==> #[trigger] positions@[k] < sorted@.len()
                        && sorted@[positions@[k] as int] == self.columns@[k],
                forall|k: int|
                    0 <= k < i ==> #[trigger] positions@[k] == first_index(
                        sorted@,
                        self.columns@[k],
                    )->0 as usize,
            decreases self.columns@.len() - i,
        {
            assert(self@[i as int] == self.columns@[i as int]);
            assert(self@.contains(self.columns@[i as int]));
            assert(sorted@.contains(self.columns@[i as int]));
            match position_in(&sorted, self.columns[i]) {
                Some(position) => positions.push(position),
                None => {},
            }
            i = i + 1;
        }
        assert(positions@ =~= decoded_places(self@));
        positions
    }

    /// A batch of the columns that were decoded, which stand in the order of the file,
    /// with the chosen columns in their order.
    pub fn reorder(&self, batch: &Batch) -> (result: Result<Batch, ReadError>)
        ensures
            arranged(result, *batch, self@),
    {
        let decoded: usize = self.parquet_columns().len();
        if column_count(batch) != decoded {
            return Err(ReadError::Rows);
        }
        let positions = self.decoded_positions();
        match project_columns(batch, &positions) {
            Ok(part) => Ok(part),
            Err(error) => Err(ReadError::Batch(BatchError::Refused(error))),
        }
    }

    /// The same, where the batch has rows at all.
    pub fn reorder_rows(&self, batch: &Batch) -> (result: Result<Option<Batch>, ReadError>)
        ensures
            if batch_rows(*batch).len() == 0 {
                result matches Ok(None)
            } else {
                match result {
                    Ok(Some(part)) => arranged(Ok(part), *batch, self@),
                    Ok(None) => false,
                    Err(error) => arranged(Err(error), *batch, self@),
                }
            },
    {
        if row_count(batch) == 0 {
            return Ok(None);
        }
        match self.reorder(batch) {
            Ok(part) => Ok(Some(part)),
            Err(error) => Err(error),
        }
    }
}

/// A strictly increasing list is determined by the values in it.
pub proof fn lemma_sorted_unique(a: Seq<usize>, b: Seq<usize>)
    requires
        strictly_increasing(a),
        strictly_increasing(b),
        forall|x: usize| a.contains(x) <==> b.contains(x),
    ensures
        a == b,
    decreases a.len(),
{
    if a.len() == 0 {
        if b.len() > 0 {
            assert(b.contains(b[0]));
        }
        assert(a =~= b);
    } else {
        assert(a.contains(a.last()));
        let j = choose|j: int| 0 <= j < b.len() && b[j] == a.last();
        assert(b.contains(b.last()));
        let i = choose|i: int| 0 <= i < a.len() && a[i] == b.last();
        assert(a.last() == b.last());
        let a1 = a.drop_last();
        let b1 = b.drop_last();
        assert forall|x: usize| a1.contains(x) <==> b1.contains(x) by {
            if a1.contains(x) {
                let k = choose|k: int| 0 <= k < a1.len() && a1[k] == x;
                assert(a[k] == x);
                assert(b.contains(x));
                let m = choose|m: int| 0 <= m < b.len() && b[m] == x;
                assert(b1[m] == x);
            }
            if b1.contains(x) {
                let k = choose|k: int| 0 <= k < b1.len() && b1[k] == x;
                assert(b[k] == x);
                assert(a.contains(x));
                let m = choose|m: int| 0 <= m < a.len() && a[m] == x;
                assert(a1[m] == x);
            }
        }
        lemma_sorted_unique(a1, b1);
        assert(a =~= a1.push(a.last()));
        assert(b =~= b1.push(b.last()));
    }
}

fn insert_sorted(sorted: &mut Vec<usize>, column: usize)
    requires
        strictly_increasing(old(sorted)@),
    ensures
        strictly_increasing(final(sorted)@),
        forall|c: usize|
            final(sorted)@.contains(c) <==> old(sorted)@.contains(c) || c == column,
{
    let ghost before = sorted@;
    let mut at: usize = 0;
    while at < sorted.len() && sorted[at] < column
        invariant
            at <= sorted@.len(),
            sorted@ == before,
            forall|k: int| 0 <= k < at ==> sorted@[k] < column,
        decreases sorted@.len() - at,
    {
        at = at + 1;
    }
    if at < sorted.len() && sorted[at] == column {
        assert(before[at as int] == column);
        return ;
    }
    sorted.insert(at, column);
    proof {
        let after = sorted@;
        assert forall|c: usize| after.contains(c) <==> before.contains(c) || c == column by {
            if after.contains(c) {
                let k = choose|k: int| 0 <= k < after.len() && after[k] == c;
                if k < at {
                    assert(before[k] == c);
                } else if k > at {
                    assert(before[k - 1] == c);
                }
            }
            if before.contains(c) {
                let k = choose|k: int| 0 <= k < before.len() && before[k] == c;
                if k < at {
                    assert(after[k] == c);
                } else {
                    assert(after[k + 1] == c);
                }
            }
            assert(after[at as int] == column);
        }
    }
}

/// Reading the columns in the order in which a file stores them and then putting them into
/// the order that was asked for gives the cells of the columns that were asked for.
pub proof fn law_decoded_columns_are_put_in_order<T>(row: Seq<T>, columns: Seq<usize>)
    requires
        columns.len() <= usize::MAX,
    ensures
        project_row(project_row(row, stored_order(columns)), decoded_places(columns))
            == project_row(row, columns),
{
    lemma_stored_order_exists(columns);
    let stored = stored_order(columns);
    let places = decoded_places(columns);
    let read = project_row(row, stored);
    let after = project_row(read, places);
    let wanted = project_row(row, columns);
    lemma_stored_order_len(stored, columns);
    assert forall|i: int| 0 <= i < columns.len() implies after[i] == wanted[i] by {
        assert(columns.contains(columns[i]));
        assert(stored.contains(columns[i]));
        lemma_first_index(stored, columns[i]);
        let at = first_index(stored, columns[i])->0;
        assert(places[i] == at as usize);
        assert(after[i] == read[at]);
        assert(read[at] == row[stored[at] as int]);
    }
    assert(after =~= wanted);
}

proof fn lemma_stored_order_exists(columns: Seq<usize>)
    ensures
        is_stored_order(stored_order(columns), columns),
{
    let sorted = lemma_stored_order_of(columns);
    assert(is_stored_order(sorted, columns));
}

proof fn lemma_stored_order_of(columns: Seq<usize>) -> (sorted: Seq<usize>)
    ensures
        is_stored_order(sorted, columns),
    decreases columns.len(),
{
    if columns.len() == 0 {
        columns
    } else {
        let init = columns.drop_last();
        let before = lemma_stored_order_of(init);
        let column = columns.last();
        let at = lemma_place_in_order(before, column);
        let sorted = if at < before.len() && before[at] == column {
            before
        } else {
            before.insert(at, column)
        };
        assert(columns =~= init.push(column));
        assert forall|c: usize| #![auto] sorted.contains(c) <==> columns.contains(c) by {
            if sorted.contains(c) && c != column {
                let k = choose|k: int| 0 <= k < sorted.len() && sorted[k] == c;
                if sorted == before {
                    assert(before.contains(c));
                } else if k < at {
                    assert(before[k] == c);
                } else {
                    assert(before[k - 1] == c);
                }
                assert(before.contains(c));
                assert(init.contains(c));
                let m = choose|m: int| 0 <= m < init.len() && init[m] == c;
                assert(columns[m] == c);
            }
            if c == column {
                assert(columns[columns.len() - 1] == c);
                assert(sorted[at] == c);
            }
            if columns.contains(c) && c != column {
                let m = choose|m: int| 0 <= m < columns.len() && columns[m] == c;
                assert(init[m] == c);
                assert(init.contains(c));
                let k = choose|k: int| 0 <= k < before.len() && before[k] == c;
                if sorted == before {
                    assert(sorted[k] == c);
                } else if k < at {
                    assert(sorted[k] == c);
                } else {
                    assert(sorted[k + 1] == c);
                }
            }
        }
        sorted
    }
}

proof fn lemma_place_in_order(values: Seq<usize>, value: usize) -> (at: int)
    requires
        strictly_increasing(values),
    ensures
        0 <= at <= values.len(),
        forall|i: int| 0 <= i < at ==> values[i] < value,
        forall|i: int| at <= i < values.len() ==> value <= values[i],
    decreases values.len(),
{
    if values.len() == 0 || values.last() < value {
        values.len() as int
    } else {
        let init = values.drop_last();
        let at = lemma_place_in_order(init, value);
        assert forall|i: int| 0 <= i < at implies values[i] < value by {
            assert(init[i] < value);
        }
        assert forall|i: int| at <= i < values.len() implies value <= values[i] by {
            if i < init.len() {
                assert(value <= init[i]);
            }
        }
        at
    }
}

proof fn lemma_stored_order_len(sorted: Seq<usize>, columns: Seq<usize>)
    requires
        is_stored_order(sorted, columns),
    ensures
        sorted.len() <= columns.len(),
{
    assert(sorted.no_duplicates());
    sorted.unique_seq_to_set();
    columns.lemma_cardinality_of_set();
    assert(sorted.to_set() =~= columns.to_set());
}

} // verus!
